//! The Update pipeline: refresh registry entries from the plugins' live
//! manifests and optionally bump each plugin's own version.
//!
//! Guards for the registry manifest and — when a bump is requested — for
//! every affected plugin manifest are all acquired before the first write,
//! so a failed acquisition leaves nothing mutated. A rename detected through
//! a plugin's manifest is carried into the registry, but two renames to the
//! same target, or a collision with an untouched entry, fails before any
//! registry write. A validation failure releases every guard in the batch.

use vstd::prelude::*;

use crate::config::MarketplaceConfig;
use crate::errors::SoukError;
use crate::fsm::Fs;
use crate::guard::{backup_name, AtomicGuard};
use crate::json::{json_parse, json_text, quoted, Json};
use crate::remove::name_views;
use crate::types::{market_file_text, EntryView, ManifestView, Marketplace, MarketView, PluginEntry};
use crate::validation::plugin_json_of;
use crate::version::{bump_major_spec, bump_minor_spec, bump_patch_spec, semver_triple};

verus! {

/// The rendered object body with every string-valued `version` field's value
/// replaced by `v`: exactly how a bump rewrites a manifest in place.
pub open spec fn obj_text_with_version(fields: Seq<(String, Json)>, v: Seq<char>) -> Seq<char>
    decreases fields.len(),
{
    if fields.len() == 0 {
        Seq::empty()
    } else {
        let piece = if fields.last().0@ == crate::types::k_version() && fields.last().1 is Str {
            quoted(crate::types::k_version()) + seq![':'] + quoted(v)
        } else {
            quoted(fields.last().0@) + seq![':'] + json_text(fields.last().1)
        };
        if fields.len() == 1 {
            piece
        } else {
            obj_text_with_version(fields.drop_last(), v) + seq![','] + piece
        }
    }
}

/// The bumped version text for one bump kind. Meaningful when the relevant
/// component does not overflow; the pipeline fails instead of wrapping.
pub open spec fn bump_kind_text(bt: Seq<char>, t: (u64, u64, u64)) -> Seq<char> {
    if bt == "major"@ {
        bump_major_spec(t)
    } else if bt == "minor"@ {
        bump_minor_spec(t)
    } else {
        bump_patch_spec(t)
    }
}

/// How one plugin manifest file reads after a bump: an object with a
/// string-valued, semantic `version` is rewritten with the bumped version;
/// anything else is left exactly as it was.
#[verifier::opaque]
pub open spec fn bumped_text(c: Seq<char>, bt: Seq<char>) -> Seq<char> {
    match json_parse(c) {
        Some(Json::Obj(fields)) => match crate::types::str_field(
            fields@,
            crate::types::k_version(),
        ) {
            Some(ver) => match semver_triple(ver) {
                Some(t) => seq!['{'] + obj_text_with_version(fields@, bump_kind_text(bt, t))
                    + seq!['}'] + seq!['\n'],
                None => c,
            },
            None => c,
        },
        _ => c,
    }
}

/// The file map after bumping each listed manifest in order. A manifest that
/// occurs twice is bumped twice, as the pipeline would.
pub open spec fn bump_fold(
    m: Map<Seq<char>, Seq<char>>,
    pjs: Seq<Seq<char>>,
    bt: Seq<char>,
) -> Map<Seq<char>, Seq<char>>
    decreases pjs.len(),
{
    if pjs.len() == 0 {
        m
    } else {
        let prev = bump_fold(m, pjs.drop_last(), bt);
        let pj = pjs.last();
        if prev.contains_key(pj) {
            prev.insert(pj, bumped_text(prev[pj], bt))
        } else {
            prev
        }
    }
}

/// The bump fold only writes the listed manifest paths.
proof fn lemma_bump_fold_preserves(
    m: Map<Seq<char>, Seq<char>>,
    pjs: Seq<Seq<char>>,
    bt: Seq<char>,
    k: Seq<char>,
)
    requires
        forall|j: int| 0 <= j < pjs.len() ==> k != #[trigger] pjs[j],
    ensures
        bump_fold(m, pjs, bt).contains_key(k) == m.contains_key(k),
        m.contains_key(k) ==> bump_fold(m, pjs, bt)[k] == m[k],
    decreases pjs.len(),
{
    if pjs.len() > 0 {
        lemma_bump_fold_preserves(m, pjs.drop_last(), bt, k);
    }
}

/// Two starting maps that agree on the listed manifest paths bump to maps
/// that agree there as well.
proof fn lemma_bump_fold_congruent(
    m1: Map<Seq<char>, Seq<char>>,
    m2: Map<Seq<char>, Seq<char>>,
    pjv: Seq<Seq<char>>,
    k: int,
    bt: Seq<char>,
)
    requires
        0 <= k <= pjv.len(),
        forall|j: int| #![trigger pjv[j]] 0 <= j < pjv.len() ==> m1.contains_key(pjv[j])
            == m2.contains_key(pjv[j]) && (m1.contains_key(pjv[j]) ==> m1[pjv[j]]
            == m2[pjv[j]]),
    ensures
        forall|j: int| #![trigger pjv[j]] 0 <= j < pjv.len() ==> bump_fold(
            m1,
            pjv.subrange(0, k),
            bt,
        ).contains_key(pjv[j]) == bump_fold(m2, pjv.subrange(0, k), bt).contains_key(pjv[j]) && (
        bump_fold(m1, pjv.subrange(0, k), bt).contains_key(pjv[j]) ==> bump_fold(
            m1,
            pjv.subrange(0, k),
            bt,
        )[pjv[j]] == bump_fold(m2, pjv.subrange(0, k), bt)[pjv[j]]),
    decreases k,
{
    if k > 0 {
        lemma_bump_fold_congruent(m1, m2, pjv, k - 1, bt);
        assert(pjv.subrange(0, k).drop_last() =~= pjv.subrange(0, k - 1));
        assert(pjv.subrange(0, k).last() == pjv[k - 1]);
    } else {
        assert(pjv.subrange(0, 0) =~= Seq::<Seq<char>>::empty());
    }
}

/// Through any prefix of the bump fold, the registry file and its backup are
/// untouched, as every fold write lands on a manifest path.
proof fn lemma_fold_mp_facts(
    ma: Map<Seq<char>, Seq<char>>,
    m0: Map<Seq<char>, Seq<char>>,
    pjv: Seq<Seq<char>>,
    k: int,
    bt: Seq<char>,
    mpv: Seq<char>,
    now: u64,
)
    requires
        0 <= k <= pjv.len(),
        forall|j: int| 0 <= j < pjv.len() ==> #[trigger] pjv[j].len() > 0 && pjv[j].last() == 'n',
        forall|j: int| 0 <= j < pjv.len() ==> #[trigger] pjv[j] != mpv,
        ma.contains_key(mpv) == m0.contains_key(mpv),
        m0.contains_key(mpv) ==> ma[mpv] == m0[mpv],
        m0.contains_key(mpv) ==> ma.contains_key(backup_name(mpv, now)) && ma[backup_name(
            mpv,
            now,
        )] == m0[mpv],
    ensures
        bump_fold(ma, pjv.subrange(0, k), bt).contains_key(mpv) == m0.contains_key(mpv),
        m0.contains_key(mpv) ==> bump_fold(ma, pjv.subrange(0, k), bt)[mpv] == m0[mpv],
        m0.contains_key(mpv) ==> bump_fold(ma, pjv.subrange(0, k), bt).contains_key(
            backup_name(mpv, now),
        ) && bump_fold(ma, pjv.subrange(0, k), bt)[backup_name(mpv, now)] == m0[mpv],
{
    let pre = pjv.subrange(0, k);
    assert forall|j: int| 0 <= j < pre.len() implies mpv != #[trigger] pre[j] by {
        assert(pre[j] == pjv[j]);
    }
    lemma_bump_fold_preserves(ma, pre, bt, mpv);
    assert forall|j: int| 0 <= j < pre.len() implies backup_name(mpv, now) != #[trigger] pre[j] by {
        assert(pre[j] == pjv[j]);
        lemma_pj_not_backup(pjv[j], mpv, now);
    }
    lemma_bump_fold_preserves(ma, pre, bt, backup_name(mpv, now));
}

/// The manifest parsed from the file at `pj`, if it is there and reads.
pub open spec fn manifest_at(m: Map<Seq<char>, Seq<char>>, pj: Seq<char>) -> Option<ManifestView> {
    if m.contains_key(pj) {
        match json_parse(m[pj]) {
            Some(v) => crate::types::manifest_of_json(v),
            None => None,
        }
    } else {
        None
    }
}

/// The first entry named `name` replaced by a refreshed entry; the rest kept.
pub open spec fn replace_first_named(
    ps: Seq<EntryView>,
    name: Seq<char>,
    new_name: Seq<char>,
    tags: Seq<Seq<char>>,
) -> Seq<EntryView>
    decreases ps.len(),
{
    if ps.len() == 0 {
        ps
    } else if ps[0].name == name {
        seq![EntryView { name: new_name, source: ps[0].source, tags }] + ps.drop_first()
    } else {
        seq![ps[0]] + replace_first_named(ps.drop_first(), name, new_name, tags)
    }
}

/// The manifest path a requested name resolves to, through the snapshot.
pub open spec fn pj_of(
    snapshot: Seq<EntryView>,
    name: Seq<char>,
    pr: Seq<char>,
    root: Seq<char>,
) -> Seq<char> {
    plugin_json_of(
        crate::resolution::resolve_source_spec(
            crate::resolution::first_named(snapshot, name)->Some_0.source,
            pr,
            root,
        ),
    )
}

/// One refresh: the entry named `name` gets the live manifest's keywords as
/// tags and, when the manifest declares a different name, that name.
pub open spec fn refresh_step(
    ps: Seq<EntryView>,
    snapshot: Seq<EntryView>,
    name: Seq<char>,
    m2: Map<Seq<char>, Seq<char>>,
    pr: Seq<char>,
    root: Seq<char>,
) -> Seq<EntryView> {
    match manifest_at(m2, pj_of(snapshot, name, pr, root)) {
        Some(mf) => {
            let nn = match mf.name {
                Some(x) => if x != name {
                    x
                } else {
                    name
                },
                None => name,
            };
            replace_first_named(ps, name, nn, mf.keywords)
        },
        None => ps,
    }
}

/// The entry list after refreshing every requested name, in order.
pub open spec fn refresh_fold(
    ps: Seq<EntryView>,
    snapshot: Seq<EntryView>,
    names: Seq<Seq<char>>,
    m2: Map<Seq<char>, Seq<char>>,
    pr: Seq<char>,
    root: Seq<char>,
) -> Seq<EntryView>
    decreases names.len(),
{
    if names.len() == 0 {
        ps
    } else {
        refresh_step(
            refresh_fold(ps, snapshot, names.drop_last(), m2, pr, root),
            snapshot,
            names.last(),
            m2,
            pr,
            root,
        )
    }
}

/// The registry document after an update: entries refreshed against the
/// post-bump manifests, patch version bumped.
pub open spec fn update_result_doc(
    d: MarketView,
    snapshot: Seq<EntryView>,
    names: Seq<Seq<char>>,
    m2: Map<Seq<char>, Seq<char>>,
    pr: Seq<char>,
    root: Seq<char>,
) -> MarketView {
    MarketView {
        version: bump_patch_spec(semver_triple(d.version)->Some_0),
        plugin_root: d.plugin_root,
        plugins: refresh_fold(d.plugins, snapshot, names, m2, pr, root),
    }
}

/// Every requested name exists in the snapshot.
pub open spec fn all_named(snapshot: Seq<EntryView>, names: Seq<Seq<char>>) -> bool {
    forall|i: int| 0 <= i < names.len() ==> crate::resolution::first_named(
        snapshot,
        #[trigger] names[i],
    ) is Some
}

/// The manifest paths of this batch stay clear of the registry manifest:
/// neither a plugin manifest nor its backup may be the registry file. The
/// standard layout (the registry under its own metadata directory, plugin
/// manifests under the plugins') gives this for free.
pub open spec fn paths_clear(
    mp: Seq<char>,
    snapshot: Seq<EntryView>,
    names: Seq<Seq<char>>,
    pr: Seq<char>,
    root: Seq<char>,
    now: u64,
) -> bool {
    forall|i: int|
        0 <= i < names.len() ==> pj_of(snapshot, #[trigger] names[i], pr, root) != mp
            && backup_name(pj_of(snapshot, names[i], pr, root), now) != mp
}

/// The bumped file map of this call: the fold over the resolved manifest
/// paths when a bump was requested, the original map otherwise.
pub open spec fn bump_result(
    m0: Map<Seq<char>, Seq<char>>,
    snapshot: Seq<EntryView>,
    names: Seq<Seq<char>>,
    pr: Seq<char>,
    root: Seq<char>,
    bt: Option<Seq<char>>,
) -> Map<Seq<char>, Seq<char>> {
    match bt {
        Some(b) => bump_fold(
            m0,
            Seq::new(names.len(), |i: int| pj_of(snapshot, names[i], pr, root)),
            b,
        ),
        None => m0,
    }
}

/// The file map after taking the batch backups, in order: each existing
/// manifest's content copied to its timestamped backup path.
pub open spec fn acq_fold(
    m: Map<Seq<char>, Seq<char>>,
    pjs: Seq<Seq<char>>,
    now: u64,
) -> Map<Seq<char>, Seq<char>>
    decreases pjs.len(),
{
    if pjs.len() == 0 {
        m
    } else {
        let prev = acq_fold(m, pjs.drop_last(), now);
        if prev.contains_key(pjs.last()) {
            prev.insert(backup_name(pjs.last(), now), prev[pjs.last()])
        } else {
            prev
        }
    }
}

/// Keys that are no backup of the batch survive the acquisitions untouched.
proof fn lemma_acq_preserves(
    m: Map<Seq<char>, Seq<char>>,
    pjs: Seq<Seq<char>>,
    now: u64,
    k: Seq<char>,
)
    requires
        forall|j: int| 0 <= j < pjs.len() ==> k != backup_name(#[trigger] pjs[j], now),
    ensures
        acq_fold(m, pjs, now).contains_key(k) == m.contains_key(k),
        m.contains_key(k) ==> acq_fold(m, pjs, now)[k] == m[k],
    decreases pjs.len(),
{
    if pjs.len() > 0 {
        lemma_acq_preserves(m, pjs.drop_last(), now, k);
    }
}

/// After the acquisitions, each existing manifest's backup holds exactly the
/// manifest's pre-acquisition content.
proof fn lemma_acq_backup_value(
    m: Map<Seq<char>, Seq<char>>,
    pjs: Seq<Seq<char>>,
    now: u64,
    j: int,
)
    requires
        0 <= j < pjs.len(),
        forall|x: int| 0 <= x < pjs.len() ==> #[trigger] pjs[x].len() > 0 && pjs[x].last() == 'n',
        m.contains_key(pjs[j]),
    ensures
        acq_fold(m, pjs, now).contains_key(backup_name(pjs[j], now)),
        acq_fold(m, pjs, now)[backup_name(pjs[j], now)] == m[pjs[j]],
    decreases pjs.len(),
{
    let prev = acq_fold(m, pjs.drop_last(), now);
    assert forall|x: int|
        0 <= x < pjs.drop_last().len() implies #[trigger] pjs.drop_last()[x].len() > 0
        && pjs.drop_last()[x].last() == 'n' by {
        assert(pjs.drop_last()[x] == pjs[x]);
    }
    if j == pjs.len() - 1 {
        // The write itself: the manifest still holds its original content.
        assert forall|x: int| 0 <= x < pjs.drop_last().len() implies pjs[j] != backup_name(
            #[trigger] pjs.drop_last()[x],
            now,
        ) by {
            lemma_pj_not_backup(pjs[j], pjs.drop_last()[x], now);
        }
        lemma_acq_preserves(m, pjs.drop_last(), now, pjs[j]);
    } else {
        lemma_acq_backup_value(m, pjs.drop_last(), now, j);
        // The final acquisition either touches another backup path or rewrites
        // this one with the same content.
        if prev.contains_key(pjs.last()) {
            if backup_name(pjs.last(), now) == backup_name(pjs[j], now) {
                lemma_backup_injective(pjs.last(), pjs[j], now);
                assert forall|x: int| 0 <= x < pjs.drop_last().len() implies pjs[j]
                    != backup_name(#[trigger] pjs.drop_last()[x], now) by {
                    lemma_pj_not_backup(pjs[j], pjs.drop_last()[x], now);
                }
                lemma_acq_preserves(m, pjs.drop_last(), now, pjs[j]);
            }
        }
    }
}

/// The bump fold never adds or removes a key.
proof fn lemma_bump_fold_dom(
    m: Map<Seq<char>, Seq<char>>,
    pjs: Seq<Seq<char>>,
    bt: Seq<char>,
    k: Seq<char>,
)
    ensures
        bump_fold(m, pjs, bt).contains_key(k) == m.contains_key(k),
    decreases pjs.len(),
{
    if pjs.len() > 0 {
        lemma_bump_fold_dom(m, pjs.drop_last(), bt, k);
    }
}

/// One guard release, as a map transformation.
pub open spec fn release_step(
    m: Map<Seq<char>, Seq<char>>,
    orig: Seq<char>,
    bak: Option<Seq<char>>,
) -> Map<Seq<char>, Seq<char>> {
    match bak {
        Some(b) => if m.contains_key(b) {
            m.insert(orig, m[b]).remove(b)
        } else {
            m
        },
        None => m,
    }
}

/// The file map after releasing a batch of guards, in order.
pub open spec fn release_fold(
    m: Map<Seq<char>, Seq<char>>,
    pairs: Seq<(Seq<char>, Option<Seq<char>>)>,
) -> Map<Seq<char>, Seq<char>>
    decreases pairs.len(),
{
    if pairs.len() == 0 {
        m
    } else {
        release_fold(release_step(m, pairs[0].0, pairs[0].1), pairs.drop_first())
    }
}

/// The shape of an update batch's guard pairs: each guards a letter-terminated
/// manifest path, with its timestamped backup exactly when one was taken.
pub open spec fn batch_pairs_ok(pairs: Seq<(Seq<char>, Option<Seq<char>>)>, now: u64) -> bool {
    forall|i: int|
        0 <= i < pairs.len() ==> #[trigger] pairs[i].0.len() > 0 && pairs[i].0.last() == 'n' && (
        match pairs[i].1 {
            Some(b) => b == backup_name(pairs[i].0, now),
            None => true,
        })
}

/// A key that no release guards or backs up survives the releases untouched.
proof fn lemma_release_fold_preserves(
    m: Map<Seq<char>, Seq<char>>,
    pairs: Seq<(Seq<char>, Option<Seq<char>>)>,
    k: Seq<char>,
)
    requires
        forall|i: int| 0 <= i < pairs.len() ==> #[trigger] pairs[i].0 != k && pairs[i].1 != Some(
            k,
        ),
    ensures
        release_fold(m, pairs).contains_key(k) == m.contains_key(k),
        m.contains_key(k) ==> release_fold(m, pairs)[k] == m[k],
    decreases pairs.len(),
{
    if pairs.len() > 0 {
        let next = release_step(m, pairs[0].0, pairs[0].1);
        assert(pairs[0].0 != k && pairs[0].1 != Some(k));
        assert forall|i: int|
            0 <= i < pairs.drop_first().len() implies #[trigger] pairs.drop_first()[i].0 != k
            && pairs.drop_first()[i].1 != Some(k) by {
            assert(pairs.drop_first()[i] == pairs[i + 1]);
            assert(pairs[i + 1].0 != k && pairs[i + 1].1 != Some(k));
        }
        lemma_release_fold_preserves(next, pairs.drop_first(), k);
    }
}

/// A restored manifest keeps its restored content through the remaining
/// releases, its backup staying gone.
proof fn lemma_release_fold_keeps(
    m: Map<Seq<char>, Seq<char>>,
    pairs: Seq<(Seq<char>, Option<Seq<char>>)>,
    now: u64,
    k: Seq<char>,
)
    requires
        batch_pairs_ok(pairs, now),
        k.len() > 0,
        k.last() == 'n',
        m.contains_key(k),
        !m.contains_key(backup_name(k, now)),
    ensures
        release_fold(m, pairs).contains_key(k),
        release_fold(m, pairs)[k] == m[k],
        !release_fold(m, pairs).contains_key(backup_name(k, now)),
    decreases pairs.len(),
{
    if pairs.len() > 0 {
        let next = release_step(m, pairs[0].0, pairs[0].1);
        assert(pairs[0].0.len() > 0 && pairs[0].0.last() == 'n');
        assert(next.contains_key(k) && next[k] == m[k] && !next.contains_key(
            backup_name(k, now),
        )) by {
            match pairs[0].1 {
                Some(b) => {
                    assert(b == backup_name(pairs[0].0, now));
                    lemma_pj_not_backup(k, pairs[0].0, now);
                    if m.contains_key(b) {
                        if pairs[0].0 == k {
                            assert(b == backup_name(k, now));
                            assert(false);
                        }
                        if b == backup_name(k, now) {
                            lemma_backup_injective(pairs[0].0, k, now);
                        }
                        lemma_pj_not_backup(pairs[0].0, pairs[0].0, now);
                    }
                },
                None => {},
            }
        }
        assert(batch_pairs_ok(pairs.drop_first(), now)) by {
            assert forall|i: int|
                0 <= i < pairs.drop_first().len() implies #[trigger] pairs.drop_first()[i].0.len()
                > 0 && pairs.drop_first()[i].0.last() == 'n' && (match pairs.drop_first()[i].1 {
                Some(b) => b == backup_name(pairs.drop_first()[i].0, now),
                None => true,
            }) by {
                assert(pairs.drop_first()[i] == pairs[i + 1]);
            }
        }
        lemma_release_fold_keeps(next, pairs.drop_first(), now, k);
    }
}

/// A manifest whose backup holds its original content is restored to it by
/// the releases, whichever guard in the batch restores it first.
proof fn lemma_release_fold_restores(
    m: Map<Seq<char>, Seq<char>>,
    pairs: Seq<(Seq<char>, Option<Seq<char>>)>,
    now: u64,
    k: Seq<char>,
    v: Seq<char>,
)
    requires
        batch_pairs_ok(pairs, now),
        k.len() > 0,
        k.last() == 'n',
        forall|i: int| 0 <= i < pairs.len() && #[trigger] pairs[i].0 == k ==> pairs[i].1 == Some(
            backup_name(k, now),
        ),
        exists|i: int| 0 <= i < pairs.len() && #[trigger] pairs[i].0 == k,
        m.contains_key(backup_name(k, now)),
        m[backup_name(k, now)] == v,
    ensures
        release_fold(m, pairs).contains_key(k),
        release_fold(m, pairs)[k] == v,
    decreases pairs.len(),
{
    let bak = backup_name(k, now);
    let next = release_step(m, pairs[0].0, pairs[0].1);
    assert(batch_pairs_ok(pairs.drop_first(), now)) by {
        assert forall|i: int|
            0 <= i < pairs.drop_first().len() implies #[trigger] pairs.drop_first()[i].0.len() > 0
            && pairs.drop_first()[i].0.last() == 'n' && (match pairs.drop_first()[i].1 {
            Some(b) => b == backup_name(pairs.drop_first()[i].0, now),
            None => true,
        }) by {
            assert(pairs.drop_first()[i] == pairs[i + 1]);
        }
    }
    if pairs[0].0 == k {
        assert(pairs[0].1 == Some(bak));
        assert(next == m.insert(k, v).remove(bak));
        lemma_pj_not_backup(k, k, now);
        lemma_release_fold_keeps(next, pairs.drop_first(), now, k);
    } else {
        assert(next.contains_key(bak) && next[bak] == v) by {
            match pairs[0].1 {
                Some(b) => {
                    assert(b == backup_name(pairs[0].0, now));
                    if b == bak {
                        lemma_backup_injective(pairs[0].0, k, now);
                    }
                    lemma_pj_not_backup(pairs[0].0, k, now);
                },
                None => {},
            }
        }
        let i0 = choose|i: int| 0 <= i < pairs.len() && #[trigger] pairs[i].0 == k;
        assert(pairs.drop_first()[i0 - 1] == pairs[i0]);
        assert forall|i: int|
            0 <= i < pairs.drop_first().len() && #[trigger] pairs.drop_first()[i].0 == k implies
            pairs.drop_first()[i].1 == Some(bak) by {
            assert(pairs.drop_first()[i] == pairs[i + 1]);
        }
        lemma_release_fold_restores(next, pairs.drop_first(), now, k, v);
    }
}

/// A manifest absent before the releases, every guard of which took no
/// backup, is still absent after them.
proof fn lemma_release_fold_no_add(
    m: Map<Seq<char>, Seq<char>>,
    pairs: Seq<(Seq<char>, Option<Seq<char>>)>,
    now: u64,
    k: Seq<char>,
)
    requires
        batch_pairs_ok(pairs, now),
        k.len() > 0,
        k.last() == 'n',
        forall|i: int| 0 <= i < pairs.len() && #[trigger] pairs[i].0 == k ==> pairs[i].1 is None,
        !m.contains_key(k),
    ensures
        !release_fold(m, pairs).contains_key(k),
    decreases pairs.len(),
{
    if pairs.len() > 0 {
        let next = release_step(m, pairs[0].0, pairs[0].1);
        assert(!next.contains_key(k)) by {
            match pairs[0].1 {
                Some(b) => {
                    if pairs[0].0 == k {
                        assert(false);
                    }
                    lemma_pj_not_backup(k, pairs[0].0, now);
                },
                None => {},
            }
        }
        assert(batch_pairs_ok(pairs.drop_first(), now)) by {
            assert forall|i: int|
                0 <= i < pairs.drop_first().len() implies #[trigger] pairs.drop_first()[i].0.len()
                > 0 && pairs.drop_first()[i].0.last() == 'n' && (match pairs.drop_first()[i].1 {
                Some(b) => b == backup_name(pairs.drop_first()[i].0, now),
                None => true,
            }) by {
                assert(pairs.drop_first()[i] == pairs[i + 1]);
            }
        }
        assert forall|i: int|
            0 <= i < pairs.drop_first().len() && #[trigger] pairs.drop_first()[i].0 == k implies
            pairs.drop_first()[i].1 is None by {
            assert(pairs.drop_first()[i] == pairs[i + 1]);
        }
        lemma_release_fold_no_add(next, pairs.drop_first(), now, k);
    }
}

/// Equal backup names come from equal paths.
proof fn lemma_backup_injective(x: Seq<char>, y: Seq<char>, t: u64)
    requires
        backup_name(x, t) == backup_name(y, t),
    ensures
        x == y,
{
    let sep = seq!['.', 'b', 'a', 'k', '.'];
    let d = crate::strnum::dec_spec(t as nat);
    assert(backup_name(x, t).len() == x.len() + sep.len() + d.len());
    assert(backup_name(y, t).len() == y.len() + sep.len() + d.len());
    assert(x.len() == y.len());
    assert forall|i: int| 0 <= i < x.len() implies x[i] == y[i] by {
        assert(backup_name(x, t)[i] == x[i]);
        assert(backup_name(y, t)[i] == y[i]);
    }
    assert(x =~= y);
}

/// A manifest path never collides with a backup path: the former ends in a
/// letter, the latter in a digit.
proof fn lemma_pj_not_backup(pj: Seq<char>, x: Seq<char>, t: u64)
    requires
        pj.len() > 0,
        pj.last() == 'n',
    ensures
        pj != backup_name(x, t),
{
    crate::strnum::lemma_dec_digits(t as nat);
    assert(backup_name(x, t).last() == crate::strnum::dec_spec(t as nat).last());
}

/// A manifest path ends with the manifest file name's final letter.
proof fn lemma_pj_last(pj: Seq<char>)
    requires
        exists|p: Seq<char>| pj == #[trigger] plugin_json_of(p),
    ensures
        pj.len() > 0,
        pj.last() == 'n',
{
    let p = choose|p: Seq<char>| pj == #[trigger] plugin_json_of(p);
    reveal_strlit("plugin.json");
    assert(pj.last() == "plugin.json"@.last());
    assert("plugin.json"@[10] == 'n');
}

/// Whether key `k` lies outside the footprint of an update batch: it is not
/// the registry file, not a listed plugin manifest, and none of their
/// timestamped backups.
pub open spec fn outside_update_footprint(
    k: Seq<char>,
    pjv: Seq<Seq<char>>,
    mpv: Seq<char>,
    now: u64,
) -> bool {
    &&& k != mpv
    &&& k != backup_name(mpv, now)
    &&& forall|j: int|
        0 <= j < pjv.len() ==> k != #[trigger] pjv[j] && k != backup_name(pjv[j], now)
}

/// After an aborted update, every batch-guarded manifest is back to its
/// original state: restored from its backup when it existed, still absent
/// when it did not. `s` is the file map when the abort began; `written` is
/// the registry text if the abort came after the registry write.
#[verifier::rlimit(100)]
#[verifier::spinoff_prover]
proof fn lemma_rollback_restores(
    m0: Map<Seq<char>, Seq<char>>,
    m1a: Map<Seq<char>, Seq<char>>,
    in_flight: Map<Seq<char>, Seq<char>>,
    s: Map<Seq<char>, Seq<char>>,
    mf: Map<Seq<char>, Seq<char>>,
    pjv: Seq<Seq<char>>,
    mpv: Seq<char>,
    now: u64,
    bt: Option<Seq<char>>,
    written: Option<Seq<char>>,
    gpairs: Seq<(Seq<char>, Option<Seq<char>>)>,
    mpbak: Option<Seq<char>>,
)
    requires
        m1a == (if m0.contains_key(mpv) {
            m0.insert(backup_name(mpv, now), m0[mpv])
        } else {
            m0
        }),
        in_flight == acq_fold(m1a, pjv, now),
        s == (match written {
            Some(t) => (match bt {
                Some(b) => bump_fold(in_flight, pjv, b),
                None => in_flight,
            }).insert(mpv, t),
            None => (match bt {
                Some(b) => bump_fold(in_flight, pjv, b),
                None => in_flight,
            }),
        }),
        mf == release_step(release_fold(s, gpairs), mpv, mpbak),
        mpbak == (if m0.contains_key(mpv) {
            Some(backup_name(mpv, now))
        } else {
            Option::<Seq<char>>::None
        }),
        gpairs.len() == pjv.len(),
        forall|i: int| 0 <= i < gpairs.len() ==> #[trigger] gpairs[i] == (
            pjv[i],
            if m0.contains_key(pjv[i]) {
                Some(backup_name(pjv[i], now))
            } else {
                Option::<Seq<char>>::None
            },
        ),
        forall|i: int| 0 <= i < pjv.len() ==> #[trigger] pjv[i].len() > 0 && pjv[i].last() == 'n',
        forall|i: int| 0 <= i < pjv.len() ==> #[trigger] pjv[i] != mpv && backup_name(
            pjv[i],
            now,
        ) != mpv,
    ensures
        forall|j: int| 0 <= j < pjv.len() ==> #[trigger] mf.contains_key(pjv[j])
            == m0.contains_key(pjv[j]) && (m0.contains_key(pjv[j]) ==> mf[pjv[j]]
            == m0[pjv[j]]),
{
    assert(batch_pairs_ok(gpairs, now)) by {
        assert forall|i: int|
            0 <= i < gpairs.len() implies #[trigger] gpairs[i].0.len() > 0 && gpairs[i].0.last()
            == 'n' && (match gpairs[i].1 {
            Some(b) => b == backup_name(gpairs[i].0, now),
            None => true,
        }) by {
            assert(gpairs[i].0 == pjv[i]);
        }
    }
    let pbm = match bt {
        Some(b) => bump_fold(in_flight, pjv, b),
        None => in_flight,
    };
    let rf = release_fold(s, gpairs);
    assert forall|j: int|
        0 <= j < pjv.len() implies #[trigger] mf.contains_key(pjv[j]) == m0.contains_key(pjv[j])
        && (m0.contains_key(pjv[j]) ==> mf[pjv[j]] == m0[pjv[j]]) by {
        let k = pjv[j];
        let bakk = backup_name(k, now);
        lemma_pj_not_backup(k, mpv, now);
        assert forall|x: int| 0 <= x < pjv.len() implies k != backup_name(
            #[trigger] pjv[x],
            now,
        ) by {
            lemma_pj_not_backup(k, pjv[x], now);
        }
        lemma_acq_preserves(m1a, pjv, now, k);
        if m0.contains_key(k) {
            lemma_acq_backup_value(m1a, pjv, now, j);
            assert(m1a.contains_key(k) && m1a[k] == m0[k]);
            assert(in_flight.contains_key(bakk) && in_flight[bakk] == m0[k]);
            match bt {
                Some(b) => {
                    assert forall|x: int| 0 <= x < pjv.len() implies bakk != #[trigger] pjv[x] by {
                        lemma_pj_not_backup(pjv[x], k, now);
                    }
                    lemma_bump_fold_preserves(in_flight, pjv, b, bakk);
                },
                None => {},
            }
            assert(pbm.contains_key(bakk) && pbm[bakk] == m0[k]);
            assert(bakk != mpv);
            assert(s.contains_key(bakk) && s[bakk] == m0[k]);
            assert forall|i: int|
                0 <= i < gpairs.len() && #[trigger] gpairs[i].0 == k implies gpairs[i].1 == Some(
                bakk,
            ) by {
                assert(gpairs[i] == (
                    pjv[i],
                    if m0.contains_key(pjv[i]) {
                        Some(backup_name(pjv[i], now))
                    } else {
                        Option::<Seq<char>>::None
                    },
                ));
            }
            assert(gpairs[j].0 == k);
            lemma_release_fold_restores(s, gpairs, now, k, m0[k]);
            match mpbak {
                Some(b) => {
                    lemma_pj_not_backup(k, mpv, now);
                    assert(k != b);
                    assert(k != mpv);
                    assert(mf.contains_key(k) && mf[k] == m0[k]);
                },
                None => {},
            }
        } else {
            assert(!in_flight.contains_key(k));
            match bt {
                Some(b) => {
                    lemma_bump_fold_dom(in_flight, pjv, b, k);
                },
                None => {},
            }
            assert(!pbm.contains_key(k));
            assert(!s.contains_key(k));
            assert forall|i: int|
                0 <= i < gpairs.len() && #[trigger] gpairs[i].0 == k implies gpairs[i].1
                is None by {
                assert(gpairs[i] == (
                    pjv[i],
                    if m0.contains_key(pjv[i]) {
                        Some(backup_name(pjv[i], now))
                    } else {
                        Option::<Seq<char>>::None
                    },
                ));
            }
            lemma_release_fold_no_add(s, gpairs, now, k);
            match mpbak {
                Some(b) => {
                    lemma_pj_not_backup(k, mpv, now);
                    assert(!mf.contains_key(k));
                },
                None => {},
            }
        }
    }
}

/// The final file map of a successful update, read off per key from the
/// chain: registry backup, batch acquisitions, bumps, registry write, then
/// both commits. `text` is the rendered registry document.
#[verifier::rlimit(100)]
#[verifier::spinoff_prover]
proof fn lemma_update_final(
    m0: Map<Seq<char>, Seq<char>>,
    m1a: Map<Seq<char>, Seq<char>>,
    in_flight: Map<Seq<char>, Seq<char>>,
    pb: Map<Seq<char>, Seq<char>>,
    m4: Map<Seq<char>, Seq<char>>,
    m5: Map<Seq<char>, Seq<char>>,
    mf: Map<Seq<char>, Seq<char>>,
    pjv: Seq<Seq<char>>,
    mpv: Seq<char>,
    now: u64,
    bt: Option<Seq<char>>,
    gviews: Seq<Option<Seq<char>>>,
    m2: Map<Seq<char>, Seq<char>>,
    text: Seq<char>,
)
    requires
        m0.contains_key(mpv),
        m1a == m0.insert(backup_name(mpv, now), m0[mpv]),
        in_flight == acq_fold(m1a, pjv, now),
        pb == (match bt {
            Some(b) => bump_fold(in_flight, pjv, b),
            None => in_flight,
        }),
        m4 == pb.insert(mpv, text),
        m5 == m4.remove(backup_name(mpv, now)),
        mf == commit_fold(m5, gviews),
        gviews.len() == pjv.len(),
        forall|j: int| 0 <= j < pjv.len() ==> #[trigger] gviews[j] == (if m0.contains_key(pjv[j]) {
            Some(backup_name(pjv[j], now))
        } else {
            Option::<Seq<char>>::None
        }),
        forall|j: int| 0 <= j < pjv.len() ==> #[trigger] pjv[j].len() > 0 && pjv[j].last() == 'n',
        forall|j: int| 0 <= j < pjv.len() ==> #[trigger] pjv[j] != mpv && backup_name(
            pjv[j],
            now,
        ) != mpv,
        forall|j: int| 0 <= j < pjv.len() ==> #[trigger] pb.contains_key(pjv[j])
            == m2.contains_key(pjv[j]) && (m2.contains_key(pjv[j]) ==> pb[pjv[j]]
            == m2[pjv[j]]),
    ensures
        mf.contains_key(mpv) && mf[mpv] == text,
        forall|j: int| 0 <= j < pjv.len() ==> #[trigger] mf.contains_key(pjv[j])
            == m2.contains_key(pjv[j]) && (m2.contains_key(pjv[j]) ==> mf[pjv[j]]
            == m2[pjv[j]]),
        !mf.contains_key(backup_name(mpv, now)),
        forall|j: int| 0 <= j < pjv.len() && m0.contains_key(#[trigger] pjv[j])
            ==> !mf.contains_key(backup_name(pjv[j], now)),
{
    crate::guard::lemma_backup_name_differs(mpv, now);
    // The registry file: both commits spare it, so it keeps the written text.
    assert forall|i: int| 0 <= i < gviews.len() implies #[trigger] gviews[i] != Some(mpv) by {
        assert(pjv[i] != mpv && backup_name(pjv[i], now) != mpv);
    }
    lemma_commit_fold_preserves(m5, gviews, mpv);
    // Each plugin manifest keeps its post-bump content through the commits.
    assert forall|j: int| 0 <= j < pjv.len() implies #[trigger] mf.contains_key(pjv[j])
        == m2.contains_key(pjv[j]) && (m2.contains_key(pjv[j]) ==> mf[pjv[j]]
        == m2[pjv[j]]) by {
        assert forall|i: int| 0 <= i < gviews.len() implies #[trigger] gviews[i] != Some(
            pjv[j],
        ) by {
            lemma_pj_not_backup(pjv[j], pjv[i], now);
        }
        lemma_commit_fold_preserves(m5, gviews, pjv[j]);
        lemma_pj_not_backup(pjv[j], mpv, now);
    }
    // The registry backup is deleted by the registry commit and never rewritten.
    lemma_commit_fold_no_new(m5, gviews, backup_name(mpv, now));
    // Each taken batch backup is deleted by its own commit.
    assert forall|j: int|
        0 <= j < pjv.len() && m0.contains_key(#[trigger] pjv[j]) implies !mf.contains_key(
        backup_name(pjv[j], now),
    ) by {
        assert(gviews[j] == Some(backup_name(pjv[j], now)));
        lemma_commit_fold_removes(m5, gviews, j, backup_name(pjv[j], now));
    }
}

/// A key outside the update footprint is untouched end to end by a
/// successful update's chain of writes and commits.
proof fn lemma_update_untouched(
    m0: Map<Seq<char>, Seq<char>>,
    m1a: Map<Seq<char>, Seq<char>>,
    in_flight: Map<Seq<char>, Seq<char>>,
    pb: Map<Seq<char>, Seq<char>>,
    m4: Map<Seq<char>, Seq<char>>,
    m5: Map<Seq<char>, Seq<char>>,
    mf: Map<Seq<char>, Seq<char>>,
    pjv: Seq<Seq<char>>,
    mpv: Seq<char>,
    now: u64,
    bt: Option<Seq<char>>,
    gviews: Seq<Option<Seq<char>>>,
    text: Seq<char>,
    k: Seq<char>,
)
    requires
        m0.contains_key(mpv),
        m1a == m0.insert(backup_name(mpv, now), m0[mpv]),
        in_flight == acq_fold(m1a, pjv, now),
        pb == (match bt {
            Some(b) => bump_fold(in_flight, pjv, b),
            None => in_flight,
        }),
        m4 == pb.insert(mpv, text),
        m5 == m4.remove(backup_name(mpv, now)),
        mf == commit_fold(m5, gviews),
        gviews.len() == pjv.len(),
        forall|j: int| 0 <= j < pjv.len() ==> #[trigger] gviews[j] == (if m0.contains_key(pjv[j]) {
            Some(backup_name(pjv[j], now))
        } else {
            Option::<Seq<char>>::None
        }),
        outside_update_footprint(k, pjv, mpv, now),
    ensures
        mf.contains_key(k) == m0.contains_key(k),
        m0.contains_key(k) ==> mf[k] == m0[k],
{
    assert forall|x: int| 0 <= x < pjv.len() implies k != backup_name(
        #[trigger] pjv[x],
        now,
    ) by {
        assert(k != pjv[x] && k != backup_name(pjv[x], now));
    }
    lemma_acq_preserves(m1a, pjv, now, k);
    match bt {
        Some(b) => {
            assert forall|x: int| 0 <= x < pjv.len() implies k != #[trigger] pjv[x] by {}
            lemma_bump_fold_preserves(in_flight, pjv, b, k);
        },
        None => {},
    }
    assert forall|i: int| 0 <= i < gviews.len() implies #[trigger] gviews[i] != Some(k) by {
        assert(k != pjv[i] && k != backup_name(pjv[i], now));
    }
    lemma_commit_fold_preserves(m5, gviews, k);
}

/// Updates the named plugins in the registry by re-reading their manifests.
///
/// Every requested name must exist in the loaded snapshot or nothing is
/// touched. With a bump type (`major`, `minor` or `patch`) each plugin's own
/// manifest version is rewritten under its own guard, all guards acquired
/// before the first write. Entry tags are refreshed from the live keywords;
/// a manifest rename is carried over unless it collides inside the batch or
/// with an untouched entry. The registry version is always patch-bumped. On
/// any failure after the first write, every guard is released, restoring all
/// guarded files.
#[verifier::loop_isolation(false)]
#[verifier::rlimit(100)]
#[verifier::spinoff_prover]
pub fn update_plugins(
    fs: &mut Fs,
    names: &Vec<String>,
    bump_type: Option<&str>,
    config: &MarketplaceConfig,
    now_secs: u64,
) -> (r: Result<Vec<String>, SoukError>)
    requires
        old(fs).wf(),
    ensures
        final(fs).wf(),
        names@.len() == 0 ==> r is Ok && r->Ok_0@.len() == 0 && *final(fs) == *old(fs),
        (r matches Err(SoukError::PluginNotFound(_)) ==> *final(fs) == *old(fs)),
        names@.len() > 0 && !all_named(config.marketplace@.plugins, name_views(names@)) ==> (r
            matches Err(SoukError::PluginNotFound(_))),
        final(fs).dir_set() == old(fs).dir_set(),
        r is Ok && names@.len() > 0 ==> name_views(r->Ok_0@) == name_views(names@),
        ({
            let m0 = old(fs).file_map();
            let mp = config.marketplace_path@;
            let nv = name_views(names@);
            (r is Err && !(r matches Err(SoukError::PluginNotFound(_))) && names@.len() > 0
                && paths_clear(
                mp,
                config.marketplace@.plugins,
                nv,
                config.project_root@,
                config.plugin_root_abs@,
                now_secs,
            )) ==> {
                &&& final(fs).file_map().contains_key(mp) == m0.contains_key(mp)
                &&& (m0.contains_key(mp) ==> final(fs).file_map()[mp] == m0[mp])
            }
        }),
        ({
            let m0 = old(fs).file_map();
            let mp = config.marketplace_path@;
            let nv = name_views(names@);
            let snapshot = config.marketplace@.plugins;
            let pr = config.project_root@;
            let root = config.plugin_root_abs@;
            let bt = match bump_type {
                Some(b) => Some(b@),
                None => None,
            };
            let m2 = bump_result(m0, snapshot, nv, pr, root, bt);
            let pjv = Seq::new(nv.len(), |i: int| pj_of(snapshot, nv[i], pr, root));
            let mf = final(fs).file_map();
            (r is Ok && names@.len() > 0 && paths_clear(mp, snapshot, nv, pr, root, now_secs))
                ==> {
                &&& crate::config::doc_at(m0, mp) is Some
                &&& mf.contains_key(mp)
                &&& mf[mp] == market_file_text(
                    update_result_doc(
                        crate::config::doc_at(m0, mp)->Some_0,
                        snapshot,
                        nv,
                        m2,
                        pr,
                        root,
                    ),
                )
                &&& forall|j: int|
                    0 <= j < pjv.len() ==> #[trigger] mf.contains_key(pjv[j])
                        == m2.contains_key(pjv[j]) && (m2.contains_key(pjv[j]) ==> mf[pjv[j]]
                        == m2[pjv[j]])
                &&& !mf.contains_key(backup_name(mp, now_secs))
                &&& forall|j: int|
                    0 <= j < pjv.len() && m0.contains_key(#[trigger] pjv[j])
                        ==> !mf.contains_key(backup_name(pjv[j], now_secs))
                &&& forall|k: Seq<char>|
                    outside_update_footprint(k, pjv, mp, now_secs)
                        ==> #[trigger] mf.contains_key(k) == m0.contains_key(k) && (
                    m0.contains_key(k) ==> mf[k] == m0[k])
            }
        }),
        ({
            let m0 = old(fs).file_map();
            let mp = config.marketplace_path@;
            let nv = name_views(names@);
            let snapshot = config.marketplace@.plugins;
            let pr = config.project_root@;
            let root = config.plugin_root_abs@;
            let pjv = Seq::new(nv.len(), |i: int| pj_of(snapshot, nv[i], pr, root));
            let mf = final(fs).file_map();
            (r matches Err(SoukError::AtomicRollback(_)) && names@.len() > 0 && paths_clear(
                mp,
                snapshot,
                nv,
                pr,
                root,
                now_secs,
            )) ==> forall|j: int|
                0 <= j < pjv.len() ==> #[trigger] mf.contains_key(pjv[j]) == m0.contains_key(
                    pjv[j],
                ) && (m0.contains_key(pjv[j]) ==> mf[pjv[j]] == m0[pjv[j]])
        }),
{
    let ghost m0 = fs.file_map();
    let ghost d0 = fs.dir_set();
    let ghost nv = name_views(names@);
    let ghost snapshot = config.marketplace@.plugins;
    let ghost pr = config.project_root@;
    let ghost root = config.plugin_root_abs@;
    let ghost mpv = config.marketplace_path@;
    let ghost clear = paths_clear(mpv, snapshot, nv, pr, root, now_secs);
    if names.len() == 0 {
        return Ok(Vec::new());
    }
    let n = names.len();

    // Every requested name must exist in the snapshot.
    let mut i: usize = 0;
    while i < n
        invariant
            i <= n,
            n == names@.len(),
            *fs == *old(fs),
            fs.wf(),
            forall|j: int| 0 <= j < i ==> crate::resolution::first_named(
                snapshot,
                #[trigger] nv[j],
            ) is Some,
        decreases n - i,
    {
        proof {
            assert(nv[i as int] == names@[i as int]@);
        }
        match crate::resolution::find_entry_index(&config.marketplace, names[i].as_str()) {
            Some(_) => {},
            None => {
                return Err(SoukError::PluginNotFound(names[i].clone()));
            },
        }
        i += 1;
    }
    proof {
        assert(all_named(snapshot, nv));
    }

    // Resolve all plugin manifest paths up front.
    let mut pjs: Vec<String> = Vec::new();
    let mut plugin_paths: Vec<String> = Vec::new();
    let mut i: usize = 0;
    while i < n
        invariant
            i <= n,
            n == names@.len(),
            *fs == *old(fs),
            fs.wf(),
            all_named(snapshot, nv),
            plugin_paths@.len() == i,
            pjs@.len() == i,
            forall|j: int| #![trigger pjs@[j]] 0 <= j < i ==> pjs@[j]@ == pj_of(
                snapshot,
                nv[j],
                pr,
                root,
            ),
            forall|j: int| #![trigger plugin_paths@[j]] 0 <= j < i ==> plugin_paths@[j]@
                == crate::resolution::resolve_source_spec(
                crate::resolution::first_named(snapshot, nv[j])->Some_0.source,
                pr,
                root,
            ),
        decreases n - i,
    {
        proof {
            assert(nv[i as int] == names@[i as int]@);
        }
        let idx = match crate::resolution::find_entry_index(&config.marketplace, names[i].as_str())
        {
            Some(idx) => idx,
            None => {
                proof {
                    assert(false);
                }
                return Err(SoukError::PluginNotFound(names[i].clone()));
            },
        };
        let resolved = match crate::resolution::resolve_source(
            config.marketplace.plugins[idx].source.as_str(),
            config,
        ) {
            Ok(p) => p,
            Err(e) => {
                proof {
                    assert(false);
                }
                return Err(e);
            },
        };
        let pj = crate::paths::join(
            crate::paths::join(resolved.as_str(), ".plugin-meta").as_str(),
            "plugin.json",
        );
        proof {
            assert(pj@ == plugin_json_of(resolved@));
        }
        let ghost ppre = plugin_paths@;
        let ghost jpre = pjs@;
        plugin_paths.push(resolved);
        pjs.push(pj);
        proof {
            assert(plugin_paths@.drop_last() =~= ppre);
            assert(pjs@.drop_last() =~= jpre);
            assert(pjs@[i as int]@ == pj_of(snapshot, nv[i as int], pr, root));
            assert(plugin_paths@[i as int]@ == crate::resolution::resolve_source_spec(
                crate::resolution::first_named(snapshot, nv[i as int])->Some_0.source,
                pr,
                root,
            ));
            assert forall|j: int| #![trigger pjs@[j]] 0 <= j < i + 1 implies pjs@[j]@ == pj_of(
                snapshot,
                nv[j],
                pr,
                root,
            ) by {
                if j < i {
                    assert(pjs@[j] == jpre[j]);
                }
            }
            assert forall|j: int| #![trigger plugin_paths@[j]] 0 <= j < i + 1 implies
                plugin_paths@[j]@ == crate::resolution::resolve_source_spec(
                crate::resolution::first_named(snapshot, nv[j])->Some_0.source,
                pr,
                root,
            ) by {
                if j < i {
                    assert(plugin_paths@[j] == ppre[j]);
                }
            }
        }
        i += 1;
    }
    let ghost pjv = Seq::new(nv.len(), |i: int| pj_of(snapshot, nv[i], pr, root));
    proof {
        assert forall|j: int| 0 <= j < n implies #[trigger] pjv[j] == pjs@[j]@ by {}
        assert forall|j: int| 0 <= j < n implies (exists|p: Seq<char>|
            #[trigger] pjv[j] == #[trigger] plugin_json_of(p)) by {
            assert(pjv[j] == plugin_json_of(plugin_paths@[j]@));
        }
        assert forall|j: int| 0 <= j < n implies #[trigger] pjv[j].len() > 0 && pjv[j].last()
            == 'n' by {
            lemma_pj_last(pjv[j]);
        }
    }

    // Acquire every guard before the first write. In-flight state: the
    // original map plus the backups, whose keys end in digits and so collide
    // with no manifest path.
    let mp_path = config.marketplace_path.as_str();
    let mp_guard = AtomicGuard::new(fs, mp_path, now_secs);
    proof {
        crate::guard::lemma_backup_name_differs(mpv, now_secs);
    }
    let ghost m1a = fs.file_map();
    let mut plugin_guards: Vec<AtomicGuard> = Vec::new();
    let mut i: usize = 0;
    while i < n
        invariant
            i <= n,
            n == pjs@.len(),
            fs.wf(),
            fs.dir_set() == d0,
            forall|j: int| #![trigger pjs@[j]] 0 <= j < n ==> pjs@[j]@ == pjv[j],
            fs.file_map() == acq_fold(m1a, pjv.subrange(0, i as int), now_secs),
            plugin_guards@.len() == i,
            forall|j: int| #![trigger plugin_guards@[j]] 0 <= j < i ==> plugin_guards@[j].original_view()
                == pjv[j] && plugin_guards@[j].backup_view() == (if m0.contains_key(pjv[j]) {
                Some(backup_name(pjv[j], now_secs))
            } else {
                Option::<Seq<char>>::None
            }),
        decreases n - i,
    {
        proof {
            assert(pjv.subrange(0, i as int + 1).drop_last() =~= pjv.subrange(0, i as int));
            assert(pjv.subrange(0, i as int + 1).last() == pjv[i as int]);
            // The manifest path ends in a letter, every in-flight write so far
            // landed on a digit-terminated backup path: the file under the new
            // guard still holds its original content (or original absence).
            assert forall|x: int|
                0 <= x < i implies pjv[i as int] != backup_name(
                #[trigger] pjv.subrange(0, i as int)[x],
                now_secs,
            ) by {
                assert(pjv.subrange(0, i as int)[x] == pjv[x]);
                lemma_pj_not_backup(pjv[i as int], pjv[x], now_secs);
            }
            lemma_acq_preserves(m1a, pjv.subrange(0, i as int), now_secs, pjv[i as int]);
            lemma_pj_not_backup(pjv[i as int], mpv, now_secs);
            assert(fs.file_map().contains_key(pjv[i as int]) == m0.contains_key(pjv[i as int]));
        }
        let ghost gpre = plugin_guards@;
        let g = AtomicGuard::new(fs, pjs[i].as_str(), now_secs);
        proof {
            assert(fs.file_map() =~= acq_fold(m1a, pjv.subrange(0, i as int + 1), now_secs));
        }
        plugin_guards.push(g);
        proof {
            assert(plugin_guards@.drop_last() =~= gpre);
            assert(plugin_guards@[i as int] == g);
        }
        i += 1;
    }
    proof {
        assert(pjv.subrange(0, n as int) =~= pjv);
    }
    let ghost gpairs = Seq::new(
        plugin_guards@.len(),
        |i: int| (plugin_guards@[i].original_view(), plugin_guards@[i].backup_view()),
    );
    let ghost in_flight = fs.file_map();
    proof {
        assert(in_flight == acq_fold(m1a, pjv, now_secs));
        if clear {
            lemma_guards_clear(plugin_guards@, pjv, mpv, now_secs);
        }
        // Backups end in digits, so every manifest path keeps its content.
        assert forall|j: int| 0 <= j < n implies #[trigger] fs.file_map().contains_key(pjv[j])
            == m0.contains_key(pjv[j]) && (m0.contains_key(pjv[j]) ==> fs.file_map()[pjv[j]]
            == m0[pjv[j]]) by {
            assert forall|x: int| 0 <= x < n implies pjv[j] != backup_name(
                #[trigger] pjv[x],
                now_secs,
            ) by {
                lemma_pj_not_backup(pjv[j], pjv[x], now_secs);
            }
            lemma_acq_preserves(m1a, pjv, now_secs, pjv[j]);
            lemma_pj_not_backup(pjv[j], mpv, now_secs);
        }
        if clear {
            assert(fs.file_map().contains_key(mpv) == m0.contains_key(mpv) && (m0.contains_key(
                mpv,
            ) ==> fs.file_map()[mpv] == m0[mpv])) by {
                assert forall|x: int| 0 <= x < n implies mpv != backup_name(
                    #[trigger] pjv[x],
                    now_secs,
                ) by {
                    assert(pjv[x] == pj_of(snapshot, nv[x], pr, root));
                    assert(backup_name(pj_of(snapshot, nv[x], pr, root), now_secs) != mpv);
                }
                lemma_acq_preserves(m1a, pjv, now_secs, mpv);
                crate::guard::lemma_backup_name_differs(mpv, now_secs);
            }
            if m0.contains_key(mpv) {
                assert(fs.file_map().contains_key(backup_name(mpv, now_secs))
                    && fs.file_map()[backup_name(mpv, now_secs)] == m0[mpv]) by {
                    assert forall|x: int| 0 <= x < n implies backup_name(mpv, now_secs)
                        != backup_name(#[trigger] pjv[x], now_secs) by {
                        assert(pjv[x] == pj_of(snapshot, nv[x], pr, root));
                        if backup_name(mpv, now_secs) == backup_name(pjv[x], now_secs) {
                            lemma_backup_injective(mpv, pjv[x], now_secs);
                            assert(backup_name(pjv[x], now_secs) != mpv);
                        }
                    }
                    lemma_acq_preserves(m1a, pjv, now_secs, backup_name(mpv, now_secs));
                }
            }
        }
    }

    // Bump each plugin manifest's version in place, under its guard.
    let ghost bt = match bump_type {
        Some(b) => Some(b@),
        None => None,
    };
    let ghost m2 = bump_result(m0, snapshot, nv, pr, root, bt);
    proof {
        assert(Seq::new(nv.len(), |i: int| pj_of(snapshot, nv[i], pr, root)) =~= pjv);
        if clear {
            assert forall|j: int| 0 <= j < n implies #[trigger] pjv[j] != mpv by {
                assert(pjv[j] == pj_of(snapshot, nv[j], pr, root));
            }
        }
    }
    match bump_type {
        Some(bump) => {
            match bump_all(
                fs,
                &pjs,
                names,
                bump,
                Ghost(pjv),
                Ghost(m0),
                Ghost(mpv),
                Ghost(now_secs),
                Ghost(clear),
            ) {
                Ok(_) => {
                    proof {
                        assert(bt == Some(bump@));
                        assert(m2 == bump_fold(m0, pjv, bump@));
                        assert(fs.file_map() == bump_fold(in_flight, pjv, bump@));
                    }
                },
                Err(e) => {
                    abort_update(fs, plugin_guards, mp_guard, Ghost(gpairs));
                    return Err(e);
                },
            }
        },
        None => {
            proof {
                assert(m2 == m0);
            }
        },
    }
    let ghost pb = fs.file_map();
    proof {
        assert(pb == (match bt {
            Some(b) => bump_fold(in_flight, pjv, b),
            None => in_flight,
        }));
        // The bumped map agrees with the fold over the original map on every
        // manifest path: the in-flight backups sit on other keys.
        assert(pjv.subrange(0, n as int) =~= pjv);
        if bt is Some {
            lemma_bump_fold_congruent(in_flight, m0, pjv, n as int, bt->Some_0);
        }
        assert forall|j: int|
            0 <= j < pjv.len() implies #[trigger] pb.contains_key(pjv[j]) == m2.contains_key(
            pjv[j],
        ) && (m2.contains_key(pjv[j]) ==> pb[pjv[j]] == m2[pjv[j]]) by {
            assert(in_flight.contains_key(pjv[j]) == m0.contains_key(pjv[j]));
            match bt {
                Some(b) => {
                    assert(bump_fold(in_flight, pjv.subrange(0, n as int), b).contains_key(
                        pjv[j],
                    ) == bump_fold(m0, pjv.subrange(0, n as int), b).contains_key(pjv[j]));
                },
                None => {},
            }
        }
    }

    // Re-read the registry manifest and refresh the entries.
    let mut doc = match crate::config::load_marketplace_doc(fs, mp_path) {
        Ok(doc) => doc,
        Err(e) => {
            abort_update(fs, plugin_guards, mp_guard, Ghost(gpairs));
            return Err(e);
        },
    };
    proof {
        if clear {
            assert(crate::config::doc_at(m0, mpv) == Some(doc@));
            assert(Seq::new(doc.plugins@.len(), |k: int| doc.plugins@[k]@) =~= doc@.plugins);
            assert(nv.subrange(0, 0) =~= Seq::<Seq<char>>::empty());
        }
    }

    proof {
        assert forall|j: int| 0 <= j < n implies #[trigger] pjv[j] == pj_of(
            snapshot,
            nv[j],
            pr,
            root,
        ) by {}
        assert(fs.file_map() == pb);
        assert forall|j: int|
            0 <= j < pjv.len() implies #[trigger] fs.file_map().contains_key(pjv[j])
            == m2.contains_key(pjv[j]) && (m2.contains_key(pjv[j]) ==> fs.file_map()[pjv[j]]
            == m2[pjv[j]]) by {
            assert(pb.contains_key(pjv[j]) == m2.contains_key(pjv[j]));
            assert(m2.contains_key(pjv[j]) ==> pb[pjv[j]] == m2[pjv[j]]);
        }
    }
    let (mut doc, updated) = match refresh_all(
        fs,
        doc,
        names,
        &pjs,
        &plugin_paths,
        config,
        Ghost(pjv),
        Ghost(m2),
        Ghost(nv),
        Ghost(clear),
    ) {
        Ok(pair) => pair,
        Err(e) => {
            let ghost s_ab = fs.file_map();
            let ghost mpbak = mp_guard.backup_view();
            proof {
                if clear {
                    assert forall|i: int|
                        0 <= i < gpairs.len() implies #[trigger] gpairs[i] == (
                        pjv[i],
                        if m0.contains_key(pjv[i]) {
                            Some(backup_name(pjv[i], now_secs))
                        } else {
                            Option::<Seq<char>>::None
                        },
                    ) by {
                        assert(plugin_guards@[i].original_view() == pjv[i]);
                    }
                    assert forall|j: int|
                        0 <= j < pjv.len() implies #[trigger] pjv[j] != mpv && backup_name(
                        pjv[j],
                        now_secs,
                    ) != mpv by {
                        assert(pjv[j] == pj_of(snapshot, nv[j], pr, root));
                    }
                    assert(m1a == (if m0.contains_key(mpv) {
                        m0.insert(backup_name(mpv, now_secs), m0[mpv])
                    } else {
                        m0
                    }));
                    assert(mpbak == (if m0.contains_key(mpv) {
                        Some(backup_name(mpv, now_secs))
                    } else {
                        Option::<Seq<char>>::None
                    }));
                }
            }
            abort_update(fs, plugin_guards, mp_guard, Ghost(gpairs));
            proof {
                if clear {
                    assert(s_ab == pb);
                    lemma_rollback_restores(
                        m0,
                        m1a,
                        in_flight,
                        s_ab,
                        fs.file_map(),
                        pjv,
                        mpv,
                        now_secs,
                        bt,
                        None,
                        gpairs,
                        mpbak,
                    );
                }
            }
            return Err(e);
        },
    };

    // Bump the registry version and write the document back.
    let new_version = match crate::version::bump_patch(doc.version.as_str()) {
        Ok(v) => v,
        Err(_) => {
            let bad = doc.version.clone();
            abort_update(fs, plugin_guards, mp_guard, Ghost(gpairs));
            return Err(SoukError::Semver(bad));
        },
    };
    let newdoc = Marketplace {
        version: new_version,
        plugin_root: doc.plugin_root,
        plugins: doc.plugins,
    };
    proof {
        if clear {
            assert(newdoc@ =~= update_result_doc(
                crate::config::doc_at(m0, mpv)->Some_0,
                snapshot,
                nv,
                m2,
                pr,
                root,
            ));
        }
    }
    let content = crate::types::render_marketplace_file(&newdoc);
    let ghost m3 = fs.file_map();
    fs.write_file(mp_path, content);
    let ghost written = newdoc@;
    proof {
        assert(fs.file_map() == m3.insert(mpv, market_file_text(written)));
    }

    let check_config = MarketplaceConfig {
        marketplace_path: config.marketplace_path.clone(),
        project_root: config.project_root.clone(),
        plugin_root_abs: config.plugin_root_abs.clone(),
        marketplace: newdoc,
    };
    let validation = crate::validation::validate_marketplace(fs, &check_config, true);
    if validation.has_errors() {
        let ghost s_ab = fs.file_map();
        let ghost mpbak = mp_guard.backup_view();
        proof {
            if clear {
                assert forall|i: int|
                0 <= i < gpairs.len() implies #[trigger] gpairs[i] == (
                pjv[i],
                if m0.contains_key(pjv[i]) {
                    Some(backup_name(pjv[i], now_secs))
                } else {
                    Option::<Seq<char>>::None
                },
                ) by {
                assert(plugin_guards@[i].original_view() == pjv[i]);
                }
                assert forall|j: int|
                0 <= j < pjv.len() implies #[trigger] pjv[j] != mpv && backup_name(
                pjv[j],
                now_secs,
                ) != mpv by {
                assert(pjv[j] == pj_of(snapshot, nv[j], pr, root));
                }
                assert(m1a == (if m0.contains_key(mpv) {
                m0.insert(backup_name(mpv, now_secs), m0[mpv])
                } else {
                m0
                }));
                assert(mpbak == (if m0.contains_key(mpv) {
                Some(backup_name(mpv, now_secs))
                } else {
                Option::<Seq<char>>::None
                }));
            }
        }
        abort_update(fs, plugin_guards, mp_guard, Ghost(gpairs));
        proof {
            if clear {
                assert(s_ab == pb.insert(mpv, market_file_text(written)));
                lemma_rollback_restores(
                    m0,
                    m1a,
                    in_flight,
                    s_ab,
                    fs.file_map(),
                    pjv,
                    mpv,
                    now_secs,
                    bt,
                    Some(market_file_text(written)),
                    gpairs,
                    mpbak,
                );
            }
        }
        return Err(
            SoukError::AtomicRollback("Marketplace validation failed after update".to_owned()),
        );
    }
    let ghost m4 = fs.file_map();
    let ghost mpbak = mp_guard.backup_view();
    let ghost gviews = Seq::new(
        plugin_guards@.len(),
        |i: int| plugin_guards@[i].backup_view(),
    );
    proof {
        assert(m4 == pb.insert(mpv, market_file_text(written)));
        assert(gviews.len() == pjv.len());
        assert forall|j: int|
            0 <= j < pjv.len() implies #[trigger] gviews[j] == (if m0.contains_key(pjv[j]) {
            Some(backup_name(pjv[j], now_secs))
        } else {
            Option::<Seq<char>>::None
        }) by {
            assert(plugin_guards@[j].backup_view() == (if m0.contains_key(pjv[j]) {
                Some(backup_name(pjv[j], now_secs))
            } else {
                Option::<Seq<char>>::None
            }));
        }
    }
    mp_guard.commit(fs);
    let ghost m5 = fs.file_map();
    commit_all(fs, plugin_guards, Ghost(gviews));
    proof {
        if clear {
            assert(crate::config::doc_at(m0, mpv) is Some);
            assert(m0.contains_key(mpv));
            assert(mpbak == Some(backup_name(mpv, now_secs)));
            assert(m5 == m4.remove(backup_name(mpv, now_secs)));
            assert forall|j: int|
                0 <= j < pjv.len() implies #[trigger] pjv[j] != mpv && backup_name(
                pjv[j],
                now_secs,
            ) != mpv by {
                assert(pjv[j] == pj_of(snapshot, nv[j], pr, root));
            }
            lemma_update_final(
                m0,
                m1a,
                in_flight,
                pb,
                m4,
                m5,
                fs.file_map(),
                pjv,
                mpv,
                now_secs,
                bt,
                gviews,
                m2,
                market_file_text(written),
            );
            assert forall|k: Seq<char>|
                outside_update_footprint(k, pjv, mpv, now_secs) implies
                #[trigger] fs.file_map().contains_key(k) == m0.contains_key(k) && (
            m0.contains_key(k) ==> fs.file_map()[k] == m0[k]) by {
                lemma_update_untouched(
                    m0,
                    m1a,
                    in_flight,
                    pb,
                    m4,
                    m5,
                    fs.file_map(),
                    pjv,
                    mpv,
                    now_secs,
                    bt,
                    gviews,
                    market_file_text(written),
                    k,
                );
            }
        }
    }
    Ok(updated)
}

/// Replacing the first `name`-named entry at its known index.
proof fn lemma_replace_first_at(ps: Seq<EntryView>, idx: int, name: Seq<char>, new: EntryView)
    requires
        0 <= idx < ps.len(),
        ps[idx].name == name,
        forall|j: int| 0 <= j < idx ==> ps[j].name != name,
        new.source == ps[idx].source,
    ensures
        replace_first_named(ps, name, new.name, new.tags) == ps.subrange(0, idx).push(new)
            + ps.skip(idx + 1),
    decreases idx,
{
    if idx == 0 {
        assert(replace_first_named(ps, name, new.name, new.tags) =~= ps.subrange(0, 0).push(new)
            + ps.skip(1));
    } else {
        lemma_replace_first_at(ps.drop_first(), idx - 1, name, new);
        assert(ps.drop_first().subrange(0, idx - 1) =~= ps.subrange(1, idx));
        assert(ps.drop_first().skip(idx) =~= ps.skip(idx + 1));
        assert(replace_first_named(ps, name, new.name, new.tags) =~= ps.subrange(0, idx).push(
            new,
        ) + ps.skip(idx + 1));
    }
}

/// Replacing a name that no entry carries changes nothing.
proof fn lemma_replace_first_absent(ps: Seq<EntryView>, name: Seq<char>)
    requires
        forall|j: int| 0 <= j < ps.len() ==> ps[j].name != name,
    ensures
        forall|nn: Seq<char>, tags: Seq<Seq<char>>| #[trigger] replace_first_named(
            ps,
            name,
            nn,
            tags,
        ) == ps,
    decreases ps.len(),
{
    if ps.len() > 0 {
        lemma_replace_first_absent(ps.drop_first(), name);
        assert forall|nn: Seq<char>, tags: Seq<Seq<char>>| #[trigger] replace_first_named(
            ps,
            name,
            nn,
            tags,
        ) == ps by {
            assert(ps[0].name != name);
            assert(replace_first_named(ps.drop_first(), name, nn, tags) == ps.drop_first());
            assert(replace_first_named(ps, name, nn, tags) =~= ps);
        }
    }
}

/// Rewrites each listed plugin manifest's version in place, in order. The
/// backups taken beforehand all end in digits, so no manifest path is a
/// backup; under the clear-paths proviso the registry file and its backup
/// are untouched as well.
#[verifier::loop_isolation(false)]
#[verifier::rlimit(100)]
#[verifier::spinoff_prover]
fn bump_all(
    fs: &mut Fs,
    pjs: &Vec<String>,
    names: &Vec<String>,
    bump: &str,
    Ghost(pjv): Ghost<Seq<Seq<char>>>,
    Ghost(m0): Ghost<Map<Seq<char>, Seq<char>>>,
    Ghost(mpv): Ghost<Seq<char>>,
    Ghost(now_secs): Ghost<u64>,
    Ghost(clear): Ghost<bool>,
) -> (r: Result<(), SoukError>)
    requires
        old(fs).wf(),
        pjs@.len() == names@.len(),
        pjv.len() == pjs@.len(),
        forall|j: int| #![trigger pjs@[j]] 0 <= j < pjs@.len() ==> pjs@[j]@ == pjv[j],
        forall|j: int| 0 <= j < pjv.len() ==> #[trigger] pjv[j].len() > 0 && pjv[j].last() == 'n',
        forall|j: int|
            0 <= j < pjv.len() ==> #[trigger] old(fs).file_map().contains_key(pjv[j])
                == m0.contains_key(pjv[j]) && (m0.contains_key(pjv[j]) ==> old(
                fs,
            ).file_map()[pjv[j]] == m0[pjv[j]]),
        clear ==> old(fs).file_map().contains_key(mpv) == m0.contains_key(mpv) && (
        m0.contains_key(mpv) ==> old(fs).file_map()[mpv] == m0[mpv]),
        clear && m0.contains_key(mpv) ==> old(fs).file_map().contains_key(
            backup_name(mpv, now_secs),
        ) && old(fs).file_map()[backup_name(mpv, now_secs)] == m0[mpv],
        clear ==> forall|j: int| 0 <= j < pjv.len() ==> #[trigger] pjv[j] != mpv,
    ensures
        final(fs).wf(),
        final(fs).dir_set() == old(fs).dir_set(),
        r is Err ==> (r->Err_0 is Other || r->Err_0 is Json || r->Err_0 is Semver),
        r is Ok ==> final(fs).file_map() == bump_fold(old(fs).file_map(), pjv, bump@),
        r is Ok ==> forall|j: int|
            0 <= j < pjv.len() ==> #[trigger] final(fs).file_map().contains_key(pjv[j])
                == bump_fold(m0, pjv, bump@).contains_key(pjv[j]) && (bump_fold(
                m0,
                pjv,
                bump@,
            ).contains_key(pjv[j]) ==> final(fs).file_map()[pjv[j]] == bump_fold(
                m0,
                pjv,
                bump@,
            )[pjv[j]]),
        clear ==> final(fs).file_map().contains_key(mpv) == m0.contains_key(mpv) && (
        m0.contains_key(mpv) ==> final(fs).file_map()[mpv] == m0[mpv]),
        clear && m0.contains_key(mpv) ==> final(fs).file_map().contains_key(
            backup_name(mpv, now_secs),
        ) && final(fs).file_map()[backup_name(mpv, now_secs)] == m0[mpv],
{
    let ghost ma = old(fs).file_map();
    let n = pjs.len();
    let mut i: usize = 0;
    while i < n
        invariant
            i <= n,
            n == pjs@.len(),
            n == names@.len(),
            fs.wf(),
            fs.dir_set() == old(fs).dir_set(),
            fs.file_map() == bump_fold(ma, pjv.subrange(0, i as int), bump@),
        decreases n - i,
    {
        proof {
            assert(pjv.subrange(0, i as int + 1).drop_last() =~= pjv.subrange(0, i as int));
            assert(pjv.subrange(0, i as int + 1).last() == pjv[i as int]);
        }
        let ghost mfold = bump_fold(ma, pjv.subrange(0, i as int), bump@);
        let pj = &pjs[i];
        let content = match fs.read_file(pj.as_str()) {
            Some(c) => c,
            None => {
                proof {
                    exit_mp_facts(ma, m0, pjv, i as int, bump@, mpv, now_secs, clear);
                }
                let mut msg = "Cannot read plugin.json for ".to_owned();
                msg.append(names[i].as_str());
                return Err(SoukError::Other(msg));
            },
        };
        let doc = match crate::json::parse_json(content.as_str()) {
            Some(v) => v,
            None => {
                proof {
                    exit_mp_facts(ma, m0, pjv, i as int, bump@, mpv, now_secs, clear);
                }
                return Err(SoukError::Json(pj.clone()));
            },
        };
        match doc {
            Json::Obj(fields) => {
                let ghost fv = fields@;
                proof {
                    reveal_strlit("version");
                    assert("version"@ =~= crate::types::k_version());
                    assert(json_parse(mfold[pjv[i as int]]) == Some(Json::Obj(fields)));
                }
                let current: Option<String> = match crate::types::lookup(&fields, "version") {
                    Some(Json::Str(s)) => Some(s.clone()),
                    _ => None,
                };
                match current {
                    Some(ver) => {
                        let bumped = if crate::paths::str_eq(bump, "major") {
                            crate::version::bump_major(ver.as_str())
                        } else if crate::paths::str_eq(bump, "minor") {
                            crate::version::bump_minor(ver.as_str())
                        } else if crate::paths::str_eq(bump, "patch") {
                            crate::version::bump_patch(ver.as_str())
                        } else {
                            proof {
                                exit_mp_facts(ma, m0, pjv, i as int, bump@, mpv, now_secs, clear);
                            }
                            let mut msg = "Invalid bump type: ".to_owned();
                            msg.append(bump);
                            return Err(SoukError::Other(msg));
                        };
                        let new_version = match bumped {
                            Ok(v) => v,
                            Err(_) => {
                                proof {
                                    exit_mp_facts(
                                        ma,
                                        m0,
                                        pjv,
                                        i as int,
                                        bump@,
                                        mpv,
                                        now_secs,
                                        clear,
                                    );
                                }
                                return Err(SoukError::Semver(ver));
                            },
                        };
                        proof {
                            assert(crate::types::str_field(fv, crate::types::k_version())
                                == Some(ver@));
                            assert(new_version@ == bump_kind_text(
                                bump@,
                                semver_triple(ver@)->Some_0,
                            ));
                        }
                        let updated = set_version_field(fields, new_version);
                        let mut out = crate::json::json_to_string(&Json::Obj(updated));
                        out.append("\n");
                        proof {
                            reveal_strlit("\n");
                            reveal(bumped_text);
                            assert(out@ =~= bumped_text(mfold[pjv[i as int]], bump@));
                        }
                        fs.write_file(pj.as_str(), out);
                        proof {
                            assert(fs.file_map() =~= bump_fold(
                                ma,
                                pjv.subrange(0, i as int + 1),
                                bump@,
                            ));
                        }
                    },
                    None => {
                        proof {
                            reveal(bumped_text);
                            assert(bumped_text(mfold[pjv[i as int]], bump@)
                                == mfold[pjv[i as int]]);
                            assert(fs.file_map() =~= bump_fold(
                                ma,
                                pjv.subrange(0, i as int + 1),
                                bump@,
                            ));
                        }
                    },
                }
            },
            _ => {
                proof {
                    reveal(bumped_text);
                    assert(bumped_text(mfold[pjv[i as int]], bump@) == mfold[pjv[i as int]]);
                    assert(fs.file_map() =~= bump_fold(
                        ma,
                        pjv.subrange(0, i as int + 1),
                        bump@,
                    ));
                }
            },
        }
        i += 1;
    }
    proof {
        lemma_bump_fold_congruent(ma, m0, pjv, n as int, bump@);
        assert(pjv.subrange(0, n as int) =~= pjv);
        exit_mp_facts(ma, m0, pjv, n as int, bump@, mpv, now_secs, clear);
    }
    Ok(())
}

/// The registry-file facts at any point of the bump phase.
proof fn exit_mp_facts(
    ma: Map<Seq<char>, Seq<char>>,
    m0: Map<Seq<char>, Seq<char>>,
    pjv: Seq<Seq<char>>,
    k: int,
    bt: Seq<char>,
    mpv: Seq<char>,
    now: u64,
    clear: bool,
)
    requires
        0 <= k <= pjv.len(),
        forall|j: int| 0 <= j < pjv.len() ==> #[trigger] pjv[j].len() > 0 && pjv[j].last() == 'n',
        clear ==> forall|j: int| 0 <= j < pjv.len() ==> #[trigger] pjv[j] != mpv,
        clear ==> ma.contains_key(mpv) == m0.contains_key(mpv) && (m0.contains_key(mpv)
            ==> ma[mpv] == m0[mpv]),
        clear && m0.contains_key(mpv) ==> ma.contains_key(backup_name(mpv, now)) && ma[backup_name(
            mpv,
            now,
        )] == m0[mpv],
    ensures
        clear ==> bump_fold(ma, pjv.subrange(0, k), bt).contains_key(mpv) == m0.contains_key(mpv)
            && (m0.contains_key(mpv) ==> bump_fold(ma, pjv.subrange(0, k), bt)[mpv] == m0[mpv]),
        clear && m0.contains_key(mpv) ==> bump_fold(ma, pjv.subrange(0, k), bt).contains_key(
            backup_name(mpv, now),
        ) && bump_fold(ma, pjv.subrange(0, k), bt)[backup_name(mpv, now)] == m0[mpv],
{
    if clear {
        lemma_fold_mp_facts(ma, m0, pjv, k, bt, mpv, now);
    }
}

/// The batch guards stay away from the registry file.
pub open spec fn guards_clear_basic(gs: Seq<AtomicGuard>, mpv: Seq<char>) -> bool {
    forall|i: int|
        0 <= i < gs.len() ==> #[trigger] gs[i].original_view() != mpv && gs[i].backup_view()
            != Some(mpv)
}

/// The batch guards stay away from the registry file and its backup `b`.
pub open spec fn guards_clear_of(gs: Seq<AtomicGuard>, mpv: Seq<char>, b: Seq<char>) -> bool {
    forall|i: int|
        0 <= i < gs.len() ==> #[trigger] gs[i].original_view() != mpv && gs[i].backup_view()
            != Some(mpv) && gs[i].backup_view() != Some(b) && gs[i].original_view() != b
}

/// Under the clear-paths proviso, the plugin-manifest guards never touch the
/// registry file or its backup.
proof fn lemma_guards_clear(gs: Seq<AtomicGuard>, pjv: Seq<Seq<char>>, mpv: Seq<char>, now: u64)
    requires
        gs.len() == pjv.len(),
        forall|i: int|
            0 <= i < gs.len() ==> #[trigger] gs[i].original_view() == pjv[i] && (match gs[i].backup_view() {
                Some(b) => b == backup_name(pjv[i], now),
                None => true,
            }),
        forall|i: int| 0 <= i < pjv.len() ==> #[trigger] pjv[i] != mpv && backup_name(
            pjv[i],
            now,
        ) != mpv,
        forall|i: int| 0 <= i < pjv.len() ==> #[trigger] pjv[i].len() > 0 && pjv[i].last() == 'n',
    ensures
        guards_clear_of(gs, mpv, backup_name(mpv, now)),
        guards_clear_basic(gs, mpv),
{
    assert forall|i: int| 0 <= i < gs.len() implies #[trigger] gs[i].original_view() != mpv
        && gs[i].backup_view() != Some(mpv) && gs[i].backup_view() != Some(
        backup_name(mpv, now),
    ) && gs[i].original_view() != backup_name(mpv, now) by {
        assert(gs[i].original_view() == pjv[i]);
        assert(pjv[i].len() > 0 && pjv[i].last() == 'n');
        lemma_pj_not_backup(pjv[i], mpv, now);
        match gs[i].backup_view() {
            Some(b) => {
                assert(b == backup_name(pjv[i], now));
                if b == backup_name(mpv, now) {
                    lemma_backup_injective(pjv[i], mpv, now);
                }
            },
            None => {},
        }
    }
}

/// Refreshes the registry entries against the live manifests: tags from the
/// keywords, a differing manifest name carried over, collisions refused.
/// Pure with respect to the filesystem.
#[verifier::loop_isolation(false)]
#[verifier::rlimit(100)]
#[verifier::spinoff_prover]
fn refresh_all(
    fs: &Fs,
    doc: Marketplace,
    names: &Vec<String>,
    pjs: &Vec<String>,
    plugin_paths: &Vec<String>,
    config: &MarketplaceConfig,
    Ghost(pjv): Ghost<Seq<Seq<char>>>,
    Ghost(m2): Ghost<Map<Seq<char>, Seq<char>>>,
    Ghost(nv): Ghost<Seq<Seq<char>>>,
    Ghost(clear): Ghost<bool>,
) -> (r: Result<(Marketplace, Vec<String>), SoukError>)
    requires
        fs.wf(),
        names@.len() == pjs@.len(),
        names@.len() == plugin_paths@.len(),
        pjv.len() == names@.len(),
        nv == name_views(names@),
        forall|j: int| #![trigger pjs@[j]] 0 <= j < pjs@.len() ==> pjs@[j]@ == pjv[j],
        forall|j: int| 0 <= j < pjv.len() ==> #[trigger] pjv[j] == pj_of(
            config.marketplace@.plugins,
            nv[j],
            config.project_root@,
            config.plugin_root_abs@,
        ),
        forall|j: int|
            0 <= j < pjv.len() ==> #[trigger] fs.file_map().contains_key(pjv[j])
                == m2.contains_key(pjv[j]) && (m2.contains_key(pjv[j]) ==> fs.file_map()[pjv[j]]
                == m2[pjv[j]]),
    ensures
        r is Err ==> (r->Err_0 is Other || r->Err_0 is Json || r->Err_0 is AtomicRollback),
        r is Ok ==> {
            let (newdoc, updated) = r->Ok_0;
            &&& name_views(updated@) == nv
            &&& newdoc@.version == doc@.version
            &&& newdoc@.plugin_root == doc@.plugin_root
            &&& (clear ==> Seq::new(newdoc.plugins@.len(), |k: int| newdoc.plugins@[k]@)
                == refresh_fold(
                doc@.plugins,
                config.marketplace@.plugins,
                nv,
                m2,
                config.project_root@,
                config.plugin_root_abs@,
            ))
        },
{
    let ghost snapshot = config.marketplace@.plugins;
    let ghost pr = config.project_root@;
    let ghost root = config.plugin_root_abs@;
    let ghost d0doc = doc@;
    let mut doc = doc;
    let n = names.len();
    let mut updated: Vec<String> = Vec::new();
    let mut rename_to: Vec<String> = Vec::new();
    let mut i: usize = 0;
    while i < n
        invariant
            i <= n,
            n == names@.len(),
            n == pjs@.len(),
            n == plugin_paths@.len(),
            updated@.len() == i,
            name_views(updated@) == nv.subrange(0, i as int),
            doc@.version == d0doc.version,
            doc@.plugin_root == d0doc.plugin_root,
            clear ==> Seq::new(doc.plugins@.len(), |k: int| doc.plugins@[k]@) == refresh_fold(
                d0doc.plugins,
                snapshot,
                nv.subrange(0, i as int),
                m2,
                pr,
                root,
            ),
        decreases n - i,
    {
        proof {
            assert(nv.subrange(0, i as int + 1).drop_last() =~= nv.subrange(0, i as int));
            assert(nv.subrange(0, i as int + 1).last() == nv[i as int]);
            assert(nv[i as int] == names@[i as int]@);
        }
        let ghost working = Seq::new(doc.plugins@.len(), |k: int| doc.plugins@[k]@);
        let pj = &pjs[i];
        let content = match fs.read_file(pj.as_str()) {
            Some(c) => c,
            None => {
                let mut msg = "Cannot read plugin.json for ".to_owned();
                msg.append(names[i].as_str());
                return Err(SoukError::Other(msg));
            },
        };
        let manifest = match crate::json::parse_json(content.as_str()) {
            Some(v) => match crate::types::extract_manifest(&v) {
                Some(mf) => mf,
                None => {
                    return Err(SoukError::Json(pj.clone()));
                },
            },
            None => {
                return Err(SoukError::Json(pj.clone()));
            },
        };
        proof {
            assert(manifest_at(m2, pjv[i as int]) == Some(manifest@));
            assert(pjv[i as int] == pj_of(snapshot, nv[i as int], pr, root));
        }

        // A manifest rename must not collide inside the batch or with an
        // entry outside it.
        match manifest.name_str() {
            Some(new_name) => {
                if !crate::paths::str_eq(new_name.as_str(), names[i].as_str()) {
                    if contains_str(&rename_to, new_name.as_str()) {
                        let mut msg = "Two plugins would both be renamed to '".to_owned();
                        msg.append(new_name.as_str());
                        msg.append("'");
                        return Err(SoukError::Other(msg));
                    }
                    let mut collides = false;
                    let pn = config.marketplace.plugins.len();
                    let mut j: usize = 0;
                    while j < pn
                        invariant
                            j <= pn,
                            pn == config.marketplace.plugins@.len(),
                        decreases pn - j,
                    {
                        if crate::paths::str_eq(
                            config.marketplace.plugins[j].name.as_str(),
                            new_name.as_str(),
                        ) && !contains_str(names, new_name.as_str()) {
                            collides = true;
                        }
                        j += 1;
                    }
                    if collides {
                        let mut msg = "Plugin '".to_owned();
                        msg.append(names[i].as_str());
                        msg.append("' would be renamed to '");
                        msg.append(new_name.as_str());
                        msg.append("' which conflicts with an existing plugin");
                        return Err(SoukError::Other(msg));
                    }
                    let nn = new_name.clone();
                    rename_to.push(nn);
                }
            },
            None => {},
        }

        // Refresh the entry's tags, and its name on a rename.
        let found = crate::resolution::find_entry_index(&doc, names[i].as_str());
        match found {
            Some(idx) => {
                let ghost widx = idx as int;
                let old_entry = doc.plugins.remove(idx);
                let entry_name: String = match manifest.name_str() {
                    Some(new_name) => {
                        if !crate::paths::str_eq(new_name.as_str(), names[i].as_str()) {
                            new_name.clone()
                        } else {
                            names[i].clone()
                        }
                    },
                    None => names[i].clone(),
                };
                let new_entry = PluginEntry {
                    name: entry_name,
                    source: old_entry.source,
                    tags: manifest.keywords,
                };
                doc.plugins.insert(idx, new_entry);
                proof {
                    if clear {
                        lemma_replace_first_at(working, widx, nv[i as int], doc.plugins@[widx]@);
                        assert(Seq::new(doc.plugins@.len(), |k: int| doc.plugins@[k]@)
                            =~= replace_first_named(
                            working,
                            nv[i as int],
                            doc.plugins@[widx]@.name,
                            doc.plugins@[widx]@.tags,
                        ));
                        assert(doc.plugins@[widx]@.tags =~= manifest@.keywords);
                        assert(doc.plugins@[widx]@.name == (match manifest@.name {
                            Some(x) => if x != nv[i as int] {
                                x
                            } else {
                                nv[i as int]
                            },
                            None => nv[i as int],
                        }));
                        assert(refresh_fold(
                            d0doc.plugins,
                            snapshot,
                            nv.subrange(0, i as int + 1),
                            m2,
                            pr,
                            root,
                        ) == refresh_step(working, snapshot, nv[i as int], m2, pr, root));
                        assert(Seq::new(doc.plugins@.len(), |k: int| doc.plugins@[k]@)
                            =~= refresh_fold(
                            d0doc.plugins,
                            snapshot,
                            nv.subrange(0, i as int + 1),
                            m2,
                            pr,
                            root,
                        ));
                    }
                }
            },
            None => {
                proof {
                    if clear {
                        crate::resolution::lemma_first_named_absent(
                            Seq::new(doc.plugins@.len(), |k: int| doc.plugins@[k]@),
                            nv[i as int],
                        );
                        lemma_replace_first_absent(working, nv[i as int]);
                        assert(Seq::new(doc.plugins@.len(), |k: int| doc.plugins@[k]@)
                            =~= refresh_fold(
                            d0doc.plugins,
                            snapshot,
                            nv.subrange(0, i as int + 1),
                            m2,
                            pr,
                            root,
                        ));
                    }
                }
            },
        }

        // Each updated plugin is re-validated after its manifest changed.
        let validation = crate::validation::validate_plugin(fs, plugin_paths[i].as_str());
        if validation.has_errors() {
            let mut msg = "Plugin validation failed for ".to_owned();
            msg.append(names[i].as_str());
            msg.append(" after update");
            return Err(SoukError::AtomicRollback(msg));
        }

        updated.push(names[i].clone());
        proof {
            assert(name_views(updated@) =~= nv.subrange(0, i as int + 1));
        }
        i += 1;
    }
    proof {
        assert(nv.subrange(0, n as int) =~= nv);
    }
    Ok((doc, updated))
}

/// Releases every batch guard, then the registry guard: the rollback path.
/// When the batch guards stay clear of the registry file and its backup, the
/// registry file comes back to the backed-up content.
fn abort_update(
    fs: &mut Fs,
    guards: Vec<AtomicGuard>,
    mp_guard: AtomicGuard,
    Ghost(pairs): Ghost<Seq<(Seq<char>, Option<Seq<char>>)>>,
)
    requires
        old(fs).wf(),
        pairs.len() == guards@.len(),
        forall|i: int| 0 <= i < pairs.len() ==> #[trigger] pairs[i] == (
            guards@[i].original_view(),
            guards@[i].backup_view(),
        ),
    ensures
        final(fs).wf(),
        final(fs).dir_set() == old(fs).dir_set(),
        final(fs).file_map() == release_step(
            release_fold(old(fs).file_map(), pairs),
            mp_guard.original_view(),
            mp_guard.backup_view(),
        ),
        ({
            let mpv = mp_guard.original_view();
            match mp_guard.backup_view() {
                Some(b) => (guards_clear_of(guards@, mpv, b) && b != mpv && old(
                    fs,
                ).file_map().contains_key(b)) ==> final(fs).file_map().contains_key(mpv)
                    && final(fs).file_map()[mpv] == old(fs).file_map()[b],
                None => guards_clear_basic(guards@, mpv) ==> final(fs).file_map().contains_key(
                    mpv,
                ) == old(fs).file_map().contains_key(mpv) && (old(fs).file_map().contains_key(mpv)
                    ==> final(fs).file_map()[mpv] == old(fs).file_map()[mpv]),
            }
        }),
{
    let ghost gv = guards@;
    let ghost m_in = old(fs).file_map();
    release_all(fs, guards, Ghost(pairs));
    let ghost mrel = fs.file_map();
    mp_guard.release(fs);
    proof {
        let mpv = mp_guard.original_view();
        assert(fs.file_map() == release_step(mrel, mpv, mp_guard.backup_view()));
        match mp_guard.backup_view() {
            Some(b) => {
                if guards_clear_of(gv, mpv, b) && b != mpv && m_in.contains_key(b) {
                    assert forall|i: int|
                        0 <= i < pairs.len() implies #[trigger] pairs[i].0 != b && pairs[i].1
                        != Some(b) by {
                        assert(pairs[i] == (gv[i].original_view(), gv[i].backup_view()));
                        assert(gv[i].original_view() != b && gv[i].backup_view() != Some(b));
                    }
                    lemma_release_fold_preserves(m_in, pairs, b);
                    assert(mrel.contains_key(b) && mrel[b] == m_in[b]);
                    assert(fs.file_map().contains_key(mpv) && fs.file_map()[mpv] == m_in[b]);
                }
            },
            None => {
                if guards_clear_basic(gv, mpv) {
                    assert forall|i: int|
                        0 <= i < pairs.len() implies #[trigger] pairs[i].0 != mpv && pairs[i].1
                        != Some(mpv) by {
                        assert(pairs[i] == (gv[i].original_view(), gv[i].backup_view()));
                        assert(gv[i].original_view() != mpv && gv[i].backup_view() != Some(mpv));
                    }
                    lemma_release_fold_preserves(m_in, pairs, mpv);
                }
            },
        }
    }
}

/// Releases every guard in the batch, restoring each guarded file.
#[verifier::rlimit(100)]
#[verifier::spinoff_prover]
fn release_all(
    fs: &mut Fs,
    guards: Vec<AtomicGuard>,
    Ghost(pairs): Ghost<Seq<(Seq<char>, Option<Seq<char>>)>>,
)
    requires
        old(fs).wf(),
        pairs.len() == guards@.len(),
        forall|i: int| 0 <= i < pairs.len() ==> #[trigger] pairs[i] == (
            guards@[i].original_view(),
            guards@[i].backup_view(),
        ),
    ensures
        final(fs).file_map() == release_fold(old(fs).file_map(), pairs),
        final(fs).wf(),
        final(fs).dir_set() == old(fs).dir_set(),
{
    let ghost g0 = guards@;
    let mut rest = guards;
    let total = rest.len();
    let mut idx: usize = 0;
    proof {
        assert(pairs.skip(0) =~= pairs);
    }
    while rest.len() > 0
        invariant
            total == g0.len(),
            total == pairs.len(),
            fs.wf(),
            fs.dir_set() == old(fs).dir_set(),
            rest@ =~= g0.skip(idx as int),
            idx + rest@.len() == total,
            forall|i: int| 0 <= i < pairs.len() ==> #[trigger] pairs[i] == (
                g0[i].original_view(),
                g0[i].backup_view(),
            ),
            release_fold(fs.file_map(), pairs.skip(idx as int)) == release_fold(
                old(fs).file_map(),
                pairs,
            ),
        decreases rest@.len(),
    {
        let ghost restpre = rest@;
        let ghost mpre = fs.file_map();
        let g = rest.remove(0);
        proof {
            assert(restpre[0] == g0.skip(idx as int)[0]);
            assert(restpre[0] == g0[idx as int]);
            assert(restpre.drop_first() =~= g0.skip(idx as int + 1));
            assert(g == g0[idx as int]);
            assert((idx as int) < pairs.len());
            assert(pairs[idx as int] == (g.original_view(), g.backup_view()));
            assert(pairs.skip(idx as int)[0] == pairs[idx as int]);
        }
        g.release(fs);
        proof {
            assert(g.original_view() == g0[idx as int].original_view());
            assert(pairs.skip(idx as int).drop_first() =~= pairs.skip(idx as int + 1));
            assert(fs.file_map() == release_step(mpre, g.original_view(), g.backup_view()));
            assert(release_fold(mpre, pairs.skip(idx as int)) == release_fold(
                fs.file_map(),
                pairs.skip(idx as int + 1),
            ));
        }
        idx += 1;
    }
    proof {
        assert(pairs.skip(total as int) =~= Seq::<(Seq<char>, Option<Seq<char>>)>::empty());
    }
}

/// The file map after deleting each taken backup, in order: exactly what
/// committing a batch of guards with these backup paths does.
pub open spec fn commit_fold(
    m: Map<Seq<char>, Seq<char>>,
    views: Seq<Option<Seq<char>>>,
) -> Map<Seq<char>, Seq<char>>
    decreases views.len(),
{
    if views.len() == 0 {
        m
    } else {
        let next = match views[0] {
            Some(b) => m.remove(b),
            None => m,
        };
        commit_fold(next, views.drop_first())
    }
}

/// A key that is none of the backups survives the commit fold untouched.
proof fn lemma_commit_fold_preserves(
    m: Map<Seq<char>, Seq<char>>,
    views: Seq<Option<Seq<char>>>,
    k: Seq<char>,
)
    requires
        forall|i: int| 0 <= i < views.len() ==> #[trigger] views[i] != Some(k),
    ensures
        commit_fold(m, views).contains_key(k) == m.contains_key(k),
        m.contains_key(k) ==> commit_fold(m, views)[k] == m[k],
    decreases views.len(),
{
    if views.len() > 0 {
        let next = match views[0] {
            Some(b) => m.remove(b),
            None => m,
        };
        assert(views[0] != Some(k));
        assert forall|i: int|
            0 <= i < views.drop_first().len() implies #[trigger] views.drop_first()[i] != Some(
            k,
        ) by {
            assert(views.drop_first()[i] == views[i + 1]);
        }
        lemma_commit_fold_preserves(next, views.drop_first(), k);
    }
}

/// The commit fold never adds a key.
proof fn lemma_commit_fold_no_new(
    m: Map<Seq<char>, Seq<char>>,
    views: Seq<Option<Seq<char>>>,
    k: Seq<char>,
)
    requires
        !m.contains_key(k),
    ensures
        !commit_fold(m, views).contains_key(k),
    decreases views.len(),
{
    if views.len() > 0 {
        let next = match views[0] {
            Some(b) => m.remove(b),
            None => m,
        };
        lemma_commit_fold_no_new(next, views.drop_first(), k);
    }
}

/// A key that is one of the taken backups is gone after the commit fold.
proof fn lemma_commit_fold_removes(
    m: Map<Seq<char>, Seq<char>>,
    views: Seq<Option<Seq<char>>>,
    j: int,
    k: Seq<char>,
)
    requires
        0 <= j < views.len(),
        views[j] == Some(k),
    ensures
        !commit_fold(m, views).contains_key(k),
    decreases views.len(),
{
    let next = match views[0] {
        Some(b) => m.remove(b),
        None => m,
    };
    if j == 0 {
        lemma_commit_fold_no_new(next, views.drop_first(), k);
    } else {
        assert(views.drop_first()[j - 1] == views[j]);
        lemma_commit_fold_removes(next, views.drop_first(), j - 1, k);
    }
}

/// Commits every guard in the batch: each taken backup is deleted, in order,
/// and nothing else changes. `vs` names the guards' backup paths.
fn commit_all(fs: &mut Fs, guards: Vec<AtomicGuard>, Ghost(vs): Ghost<Seq<Option<Seq<char>>>>)
    requires
        old(fs).wf(),
        vs.len() == guards@.len(),
        forall|i: int| 0 <= i < vs.len() ==> #[trigger] vs[i] == guards@[i].backup_view(),
    ensures
        final(fs).wf(),
        final(fs).dir_set() == old(fs).dir_set(),
        final(fs).file_map() == commit_fold(old(fs).file_map(), vs),
{
    let ghost g0 = guards@;
    let mut rest = guards;
    let total = rest.len();
    let mut idx: usize = 0;
    proof {
        assert(vs.skip(0) =~= vs);
    }
    while rest.len() > 0
        invariant
            total == g0.len(),
            total == vs.len(),
            fs.wf(),
            fs.dir_set() == old(fs).dir_set(),
            rest@ =~= g0.skip(idx as int),
            idx + rest@.len() == total,
            forall|i: int| 0 <= i < vs.len() ==> #[trigger] vs[i] == g0[i].backup_view(),
            commit_fold(fs.file_map(), vs.skip(idx as int)) == commit_fold(
                old(fs).file_map(),
                vs,
            ),
        decreases rest@.len(),
    {
        let ghost restpre = rest@;
        let ghost mpre = fs.file_map();
        let g = rest.remove(0);
        proof {
            assert(restpre[0] == g0.skip(idx as int)[0]);
            assert(restpre[0] == g0[idx as int]);
            assert(restpre.drop_first() =~= g0.skip(idx as int + 1));
            assert(g == g0[idx as int]);
            assert((idx as int) < vs.len());
            assert(vs[idx as int] == g0[idx as int].backup_view());
            assert(vs.skip(idx as int)[0] == vs[idx as int]);
            assert(vs[idx as int] == g.backup_view());
        }
        g.commit(fs);
        proof {
            assert(vs.skip(idx as int).drop_first() =~= vs.skip(idx as int + 1));
            assert(fs.file_map() == (match vs.skip(idx as int)[0] {
                Some(b) => mpre.remove(b),
                None => mpre,
            }));
            assert(commit_fold(mpre, vs.skip(idx as int)) == commit_fold(
                fs.file_map(),
                vs.skip(idx as int + 1),
            ));
        }
        idx += 1;
    }
    proof {
        assert(vs.skip(total as int) =~= Seq::<Option<Seq<char>>>::empty());
    }
}

/// Whether `name` occurs in `v`.
fn contains_str(v: &Vec<String>, name: &str) -> (r: bool)
    ensures
        r == exists|i: int| 0 <= i < v@.len() && v@[i]@ == name@,
{
    crate::fsm::contains_string(v, name)
}

/// Replaces the value under every string-valued `version` key; the rendered
/// object text is exactly [`obj_text_with_version`] of the old fields.
#[verifier::loop_isolation(false)]
#[verifier::rlimit(60)]
fn set_version_field(fields: Vec<(String, Json)>, v: String) -> (r: Vec<(String, Json)>)
    ensures
        crate::json::obj_text(r@) == obj_text_with_version(fields@, v@),
{
    let ghost f0 = fields@;
    let mut rest = fields;
    let total = rest.len();
    let mut out: Vec<(String, Json)> = Vec::new();
    let mut idx: usize = 0;
    while rest.len() > 0
        invariant
            total == f0.len(),
            rest@ =~= f0.skip(idx as int),
            idx + rest@.len() == total,
            crate::json::obj_text(out@) == obj_text_with_version(f0.subrange(0, idx as int), v@),
            out@.len() == idx,
        decreases rest@.len(),
    {
        let ghost restpre = rest@;
        let ghost outpre = out@;
        let (k, val) = rest.remove(0);
        proof {
            assert(restpre[0] == f0[idx as int]);
            assert(restpre.drop_first() =~= f0.skip(idx as int + 1));
            assert(f0.subrange(0, idx as int + 1).drop_last() =~= f0.subrange(0, idx as int));
            assert(f0.subrange(0, idx as int + 1).last() == f0[idx as int]);
        }
        let is_version = crate::paths::str_eq(k.as_str(), "version");
        proof {
            reveal_strlit("version");
            assert("version"@ =~= crate::types::k_version());
        }
        let is_str = matches!(val, Json::Str(_));
        if is_version && is_str {
            out.push((k, Json::Str(v.clone())));
            proof {
                assert(out@.drop_last() =~= outpre);
                assert(out@.last().0@ == crate::types::k_version());
                assert(out@.last().1 is Str);
                assert(crate::json::json_text(out@.last().1) == quoted(v@));
                assert(crate::json::obj_text(out@) =~= obj_text_with_version(
                    f0.subrange(0, idx as int + 1),
                    v@,
                ));
            }
        } else {
            out.push((k, val));
            proof {
                assert(out@.drop_last() =~= outpre);
                assert(out@.last() == f0[idx as int]);
                assert(crate::json::obj_text(out@) =~= obj_text_with_version(
                    f0.subrange(0, idx as int + 1),
                    v@,
                ));
            }
        }
        idx += 1;
    }
    proof {
        assert(f0.subrange(0, f0.len() as int) =~= f0);
    }
    out
}

} // verus!
