//! Semantic version bumping and unique name generation.
//!
//! Version strings are parsed with the `semver` crate; bumping re-renders the
//! numeric triple, which drops any pre-release or build metadata, following
//! standard increment semantics.

use vstd::prelude::*;

use crate::errors::SoukError;
use crate::strnum::{dec_spec, lemma_dec_injective, u64_to_string};

verus! {

/// The numeric triple of a semantic version text, or `None` when the text is
/// not a valid semantic version. A function of the text alone.
pub uninterp spec fn semver_triple(s: Seq<char>) -> Option<(u64, u64, u64)>;

/// Relies on semver::Version::parse: whether a text is a valid semantic
/// version, and its major, minor and patch components, depend on the text
/// alone.
#[verifier::external_body]
pub fn parse_semver(s: &str) -> (r: Option<(u64, u64, u64)>)
    ensures
        r == semver_triple(s@),
{
    match semver::Version::parse(s) {
        Ok(v) => Some((v.major, v.minor, v.patch)),
        Err(_) => None,
    }
}

/// The canonical text of a numeric version triple.
pub open spec fn ver_text(x: u64, y: u64, z: u64) -> Seq<char> {
    dec_spec(x as nat) + seq!['.'] + dec_spec(y as nat) + seq!['.'] + dec_spec(z as nat)
}

/// Renders a numeric version triple as `x.y.z`.
pub fn format_version(x: u64, y: u64, z: u64) -> (r: String)
    ensures
        r@ == ver_text(x, y, z),
{
    let mut s = u64_to_string(x);
    s.append(".");
    let sy = u64_to_string(y);
    s.append(sy.as_str());
    s.append(".");
    let sz = u64_to_string(z);
    s.append(sz.as_str());
    proof {
        reveal_strlit(".");
        assert(s@ =~= ver_text(x, y, z));
    }
    s
}

/// What a successful bump returns: the incremented triple rendered
/// canonically, so pre-release and build metadata are dropped.
pub open spec fn bump_major_spec(t: (u64, u64, u64)) -> Seq<char> {
    ver_text((t.0 + 1) as u64, 0, 0)
}

pub open spec fn bump_minor_spec(t: (u64, u64, u64)) -> Seq<char> {
    ver_text(t.0, (t.1 + 1) as u64, 0)
}

pub open spec fn bump_patch_spec(t: (u64, u64, u64)) -> Seq<char> {
    ver_text(t.0, t.1, (t.2 + 1) as u64)
}

/// Bumps the major component; minor and patch reset to zero.
///
/// Fails when `version` is not a valid semantic version, or when the bumped
/// component would not fit in its integer type.
pub fn bump_major(version: &str) -> (r: Result<String, SoukError>)
    ensures
        match semver_triple(version@) {
            Some(t) => if t.0 < u64::MAX {
                r is Ok && r->Ok_0@ == bump_major_spec(t)
            } else {
                r is Err
            },
            None => r matches Err(SoukError::Semver(_)),
        },
{
    match parse_semver(version) {
        Some(t) => {
            if t.0 < u64::MAX {
                Ok(format_version(t.0 + 1, 0, 0))
            } else {
                Err(SoukError::Other(version.to_owned()))
            }
        },
        None => Err(SoukError::Semver(version.to_owned())),
    }
}

/// Bumps the minor component; patch resets to zero.
pub fn bump_minor(version: &str) -> (r: Result<String, SoukError>)
    ensures
        match semver_triple(version@) {
            Some(t) => if t.1 < u64::MAX {
                r is Ok && r->Ok_0@ == bump_minor_spec(t)
            } else {
                r is Err
            },
            None => r matches Err(SoukError::Semver(_)),
        },
{
    match parse_semver(version) {
        Some(t) => {
            if t.1 < u64::MAX {
                Ok(format_version(t.0, t.1 + 1, 0))
            } else {
                Err(SoukError::Other(version.to_owned()))
            }
        },
        None => Err(SoukError::Semver(version.to_owned())),
    }
}

/// Bumps the patch component.
pub fn bump_patch(version: &str) -> (r: Result<String, SoukError>)
    ensures
        match semver_triple(version@) {
            Some(t) => if t.2 < u64::MAX {
                r is Ok && r->Ok_0@ == bump_patch_spec(t)
            } else {
                r is Err
            },
            None => r matches Err(SoukError::Semver(_)),
        },
{
    match parse_semver(version) {
        Some(t) => {
            if t.2 < u64::MAX {
                Ok(format_version(t.0, t.1, t.2 + 1))
            } else {
                Err(SoukError::Other(version.to_owned()))
            }
        },
        None => Err(SoukError::Semver(version.to_owned())),
    }
}

/// The candidate name for `base` with numeric suffix `k`: `base-k`.
pub open spec fn suffixed_name(base: Seq<char>, k: nat) -> Seq<char> {
    base + seq!['-'] + dec_spec(k)
}

/// Whether `name` occurs in `existing`.
pub open spec fn name_taken(name: Seq<char>, existing: Seq<String>) -> bool {
    exists|i: int| 0 <= i < existing.len() && existing[i]@ == name
}

/// Candidate names with distinct suffixes are distinct.
proof fn lemma_suffixed_injective(base: Seq<char>, a: nat, b: nat)
    requires
        suffixed_name(base, a) == suffixed_name(base, b),
    ensures
        a == b,
{
    let sa = suffixed_name(base, a);
    let sb = suffixed_name(base, b);
    assert(dec_spec(a) =~= sa.subrange(base.len() as int + 1, sa.len() as int));
    assert(dec_spec(b) =~= sb.subrange(base.len() as int + 1, sb.len() as int));
    lemma_dec_injective(a, b);
}

/// Whether `name` occurs among the first `n` entries of `existing`.
fn contains_name(existing: &Vec<String>, name: &str) -> (r: bool)
    ensures
        r == name_taken(name@, existing@),
{
    let n = existing.len();
    let mut i: usize = 0;
    while i < n
        invariant
            n == existing@.len(),
            i <= n,
            forall|j: int| 0 <= j < i ==> existing@[j]@ != name@,
        decreases n - i,
    {
        if crate::paths::str_eq(existing[i].as_str(), name) {
            return true;
        }
        i += 1;
    }
    false
}

/// Generates a unique name: `base` itself when it is not taken, otherwise the
/// first of `base-2`, `base-3`, ... that is not taken — so numeric gaps are
/// filled, and the search never starts at suffix 1.
#[verifier::loop_isolation(false)]
pub fn generate_unique_name(base: &str, existing: &Vec<String>) -> (r: String)
    requires
        existing@.len() < usize::MAX - 2,
    ensures
        !name_taken(r@, existing@),
        name_taken(base@, existing@) ==> exists|k: nat|
            2 <= k && r@ == suffixed_name(base@, k) && forall|j: nat|
                2 <= j < k ==> name_taken(suffixed_name(base@, j), existing@),
        !name_taken(base@, existing@) ==> r@ == base@,
{
    if !contains_name(existing, base) {
        return base.to_owned();
    }
    let bound = existing.len() + 2;
    let mut counter: usize = 2;
    loop
        invariant
            2 <= counter <= bound - 1,
            existing@.len() == bound - 2,
            forall|j: nat| 2 <= j < counter ==> name_taken(suffixed_name(base@, j), existing@),
        decreases bound - counter,
    {
        let mut candidate = base.to_owned();
        candidate.append("-");
        let num = u64_to_string(counter as u64);
        candidate.append(num.as_str());
        proof {
            reveal_strlit("-");
            assert(candidate@ =~= suffixed_name(base@, counter as nat));
        }
        if !contains_name(existing, candidate.as_str()) {
            return candidate;
        }
        if counter == bound - 1 {
            // `counter - 2` distinct taken candidates plus the base all sit in
            // a list of `bound - 2` names, which is impossible; the loop must
            // have found a free candidate before this point.
            proof {
                assert(name_taken(suffixed_name(base@, counter as nat), existing@));
                assert forall|j: nat| 2 <= j < counter as nat + 1 implies name_taken(
                    suffixed_name(base@, j),
                    existing@,
                ) by {
                    if j < counter as nat {
                        assert(name_taken(suffixed_name(base@, j), existing@));
                    }
                }
                lemma_pigeonhole(base@, existing@, counter as nat + 1);
            }
            assert(false);
        }
        counter += 1;
    }
}

/// When the base and every candidate suffix in `2..bound` are all taken, the
/// list must hold at least `bound - 1` distinct names.
proof fn lemma_pigeonhole(base: Seq<char>, existing: Seq<String>, bound: nat)
    requires
        2 <= bound,
        name_taken(base, existing),
        forall|j: nat| 2 <= j < bound ==> name_taken(suffixed_name(base, j), existing),
    ensures
        existing.len() >= bound - 1,
{
    let names = Set::new(|n: Seq<char>| name_taken(n, existing));
    let listed = Set::new(|i: int| 0 <= i < existing.len());
    let f = |n: Seq<char>| choose|i: int| 0 <= i < existing.len() && existing[i]@ == n;
    assert forall|n: Seq<char>| names.contains(n) implies listed.contains(f(n)) by {
        let i = choose|i: int| 0 <= i < existing.len() && existing[i]@ == n;
        assert(existing[i]@ == n);
    }
    assert forall|n1: Seq<char>, n2: Seq<char>|
        names.contains(n1) && names.contains(n2) && n1 != n2 implies f(n1) != f(n2) by {
        let i1 = choose|i: int| 0 <= i < existing.len() && existing[i]@ == n1;
        let i2 = choose|i: int| 0 <= i < existing.len() && existing[i]@ == n2;
        assert(existing[i1]@ == n1);
        assert(existing[i2]@ == n2);
    }
    let cands = Set::new(|k: nat| 2 <= k < bound).insert(0);
    let g = |k: nat| if k == 0 { base } else { suffixed_name(base, k) };
    assert forall|k: nat| cands.contains(k) implies names.contains(g(k)) by {}
    assert forall|k1: nat, k2: nat|
        cands.contains(k1) && cands.contains(k2) && k1 != k2 implies g(k1) != g(k2) by {
        if k1 != 0 && k2 != 0 {
            if suffixed_name(base, k1) == suffixed_name(base, k2) {
                lemma_suffixed_injective(base, k1, k2);
            }
        } else {
            let k = if k1 == 0 { k2 } else { k1 };
            assert(suffixed_name(base, k).len() > base.len());
        }
    }
    // |cands| = bound - 1 injects into the list indices, of which there are
    // only existing.len().
    let h = |k: nat| f(g(k));
    assert forall|k1: nat, k2: nat|
        cands.contains(k1) && cands.contains(k2) && k1 != k2 implies h(k1) != h(k2) by {}
    assert forall|k: nat| cands.contains(k) implies listed.contains(#[trigger] h(k)) by {}
    lemma_nat_range_card(bound);
    vstd::set_lib::lemma_int_range(0, existing.len() as int);
    assert(listed =~= vstd::set_lib::set_int_range(0, existing.len() as int));
    lemma_inj_card(cands, listed, h);
}

/// The candidate suffix set `{0} ∪ [2, bound)` has `bound - 1` elements.
proof fn lemma_nat_range_card(bound: nat)
    requires
        2 <= bound,
    ensures
        Set::new(|k: nat| 2 <= k < bound).insert(0).finite(),
        Set::new(|k: nat| 2 <= k < bound).insert(0).len() == bound - 1,
    decreases bound,
{
    if bound == 2 {
        assert(Set::new(|k: nat| 2 <= k < 2nat).insert(0) =~= Set::empty().insert(0nat));
    } else {
        lemma_nat_range_card((bound - 1) as nat);
        assert(Set::new(|k: nat| 2 <= k < bound).insert(0) =~= Set::new(
            |k: nat| 2 <= k < bound - 1,
        ).insert(0).insert((bound - 1) as nat));
    }
}

/// An injection from a finite set into another set bounds the first set's
/// cardinality by the second's.
proof fn lemma_inj_card(a: Set<nat>, b: Set<int>, h: spec_fn(nat) -> int)
    requires
        a.finite(),
        b.finite(),
        forall|x: nat| a.contains(x) ==> b.contains(#[trigger] h(x)),
        forall|x1: nat, x2: nat| a.contains(x1) && a.contains(x2) && x1 != x2 ==> h(x1) != h(x2),
    ensures
        a.len() <= b.len(),
    decreases a.len(),
{
    if a.len() > 0 {
        let x = a.choose();
        assert(a.contains(x));
        lemma_inj_card(a.remove(x), b.remove(h(x)), h);
    }
}

} // verus!
