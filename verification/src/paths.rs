//! Path strings and the containment order on them.
//!
//! Paths are plain strings with `/` separators, already in canonical form:
//! the model does not resolve `.` or `..` components.

use vstd::prelude::*;

verus! {

/// `k` is strictly inside the directory `p`: it extends `p` with `/` and more.
pub open spec fn strictly_under(k: Seq<char>, p: Seq<char>) -> bool {
    k.len() > p.len() && k.subrange(0, p.len() as int) == p && k[p.len() as int] == '/'
}

/// `k` names `p` itself or something inside the directory `p`.
pub open spec fn under(k: Seq<char>, p: Seq<char>) -> bool {
    k == p || strictly_under(k, p)
}

/// All paths at or below `p`.
pub open spec fn under_set(p: Seq<char>) -> Set<Seq<char>> {
    Set::new(|k: Seq<char>| under(k, p))
}

/// Containment is transitive.
pub proof fn lemma_under_trans(k: Seq<char>, a: Seq<char>, b: Seq<char>)
    requires
        under(k, a),
        under(a, b),
    ensures
        under(k, b),
{
    if k != a && a != b {
        assert(strictly_under(k, a));
        assert(strictly_under(a, b));
        assert(k.subrange(0, b.len() as int) =~= b) by {
            assert forall|x: int| 0 <= x < b.len() implies k[x] == b[x] by {
                assert(k.subrange(0, a.len() as int)[x] == a[x]);
                assert(a.subrange(0, b.len() as int)[x] == b[x]);
            }
        }
        assert(k[b.len() as int] == a[b.len() as int]);
    }
}

/// Exact character-wise equality of two string slices.
pub fn str_eq(a: &str, b: &str) -> (r: bool)
    ensures
        r == (a@ == b@),
{
    let alen = a.unicode_len();
    let blen = b.unicode_len();
    if alen != blen {
        return false;
    }
    let mut i: usize = 0;
    while i < alen
        invariant
            alen == a@.len(),
            alen == b@.len(),
            i <= alen,
            forall|j: int| 0 <= j < i ==> a@[j] == b@[j],
        decreases alen - i,
    {
        if a.get_char(i) != b.get_char(i) {
            return false;
        }
        i += 1;
    }
    proof {
        assert(a@ =~= b@);
    }
    true
}

/// Whether the path `k` lies at or below the directory path `p`.
pub fn is_under(k: &str, p: &str) -> (r: bool)
    ensures
        r == under(k@, p@),
{
    let klen = k.unicode_len();
    let plen = p.unicode_len();
    if klen < plen {
        return false;
    }
    if klen == plen {
        return str_eq(k, p);
    }
    if k.get_char(plen) != '/' {
        return false;
    }
    let mut i: usize = 0;
    while i < plen
        invariant
            klen == k@.len(),
            plen == p@.len(),
            plen < klen,
            i <= plen,
            k@[plen as int] == '/',
            forall|j: int| 0 <= j < i ==> k@[j] == p@[j],
        decreases plen - i,
    {
        if k.get_char(i) != p.get_char(i) {
            return false;
        }
        i += 1;
    }
    proof {
        assert(k@.subrange(0, plen as int) =~= p@);
    }
    true
}

/// Joins a directory path and a name with a single separator.
pub fn join(a: &str, b: &str) -> (r: String)
    ensures
        r@ == a@ + seq!['/'] + b@,
{
    let mut s = a.to_owned();
    s.append("/");
    s.append(b);
    proof {
        reveal_strlit("/");
        assert(s@ =~= a@ + seq!['/'] + b@);
    }
    s
}

/// Whether `s` starts with `prefix`.
pub open spec fn has_prefix(s: Seq<char>, prefix: Seq<char>) -> bool {
    s.len() >= prefix.len() && s.subrange(0, prefix.len() as int) == prefix
}

pub fn starts_with(s: &str, prefix: &str) -> (r: bool)
    ensures
        r == has_prefix(s@, prefix@),
{
    let slen = s.unicode_len();
    let plen = prefix.unicode_len();
    if slen < plen {
        return false;
    }
    let mut i: usize = 0;
    while i < plen
        invariant
            slen == s@.len(),
            plen == prefix@.len(),
            plen <= slen,
            i <= plen,
            forall|j: int| 0 <= j < i ==> s@[j] == prefix@[j],
        decreases plen - i,
    {
        if s.get_char(i) != prefix.get_char(i) {
            return false;
        }
        i += 1;
    }
    proof {
        assert(s@.subrange(0, plen as int) =~= prefix@);
    }
    true
}

/// The longest suffix of `s` that contains no separator.
pub open spec fn basename_spec(s: Seq<char>) -> Seq<char>
    decreases s.len(),
{
    if s.len() == 0 {
        s
    } else if s.last() == '/' {
        Seq::empty()
    } else {
        basename_spec(s.drop_last()).push(s.last())
    }
}

proof fn lemma_basename_from(s: Seq<char>, j: int)
    requires
        0 <= j <= s.len(),
        j == 0 || s[j - 1] == '/',
        forall|k: int| j <= k < s.len() ==> s[k] != '/',
    ensures
        basename_spec(s) == s.subrange(j, s.len() as int),
    decreases s.len(),
{
    if j == s.len() {
        if j > 0 {
            assert(s.last() == '/');
        }
        assert(basename_spec(s) =~= s.subrange(j, s.len() as int));
    } else {
        assert(s.last() != '/');
        lemma_basename_from(s.drop_last(), j);
        assert(s.subrange(j, s.len() as int) =~= s.drop_last().subrange(
            j,
            s.len() as int - 1,
        ).push(s.last()));
    }
}

/// The final path component: everything after the last separator.
pub fn basename(s: &str) -> (r: String)
    ensures
        r@ == basename_spec(s@),
{
    let len = s.unicode_len();
    let mut start: usize = 0;
    let mut i: usize = 0;
    while i < len
        invariant
            len == s@.len(),
            i <= len,
            start <= i,
            start == 0 || s@[start - 1] == '/',
            forall|k: int| start <= k < i ==> s@[k] != '/',
        decreases len - i,
    {
        if s.get_char(i) == '/' {
            start = i + 1;
        }
        i += 1;
    }
    let r = s.substring_char(start, len).to_owned();
    proof {
        lemma_basename_from(s@, start as int);
    }
    r
}

/// Whether `s` holds a separator at all.
pub open spec fn has_slash(s: Seq<char>) -> bool {
    exists|i: int| 0 <= i < s.len() && s[i] == '/'
}

/// Everything before the last separator of `s`.
pub open spec fn dirname_spec(s: Seq<char>) -> Seq<char>
    decreases s.len(),
{
    if s.len() == 0 {
        s
    } else if s.last() == '/' {
        s.drop_last()
    } else {
        dirname_spec(s.drop_last())
    }
}

proof fn lemma_dirname_at(s: Seq<char>, i: int)
    requires
        0 <= i < s.len(),
        s[i] == '/',
        forall|k: int| i < k < s.len() ==> s[k] != '/',
    ensures
        dirname_spec(s) == s.subrange(0, i),
    decreases s.len(),
{
    if i == s.len() - 1 {
        assert(dirname_spec(s) =~= s.subrange(0, i));
    } else {
        assert(s.last() != '/');
        lemma_dirname_at(s.drop_last(), i);
        assert(s.drop_last().subrange(0, i) =~= s.subrange(0, i));
    }
}

/// A proper parent is shorter than the path itself.
pub proof fn lemma_dirname_shorter(s: Seq<char>)
    requires
        has_slash(s),
    ensures
        dirname_spec(s).len() < s.len(),
    decreases s.len(),
{
    if s.len() > 0 && s.last() != '/' {
        let i = choose|i: int| 0 <= i < s.len() && s[i] == '/';
        assert(s.drop_last()[i] == '/');
        lemma_dirname_shorter(s.drop_last());
    }
}

/// The path with its final component removed, or `None` when it has no
/// separator.
pub fn parent_dir(s: &str) -> (r: Option<String>)
    ensures
        match r {
            Some(d) => has_slash(s@) && d@ == dirname_spec(s@),
            None => !has_slash(s@),
        },
{
    let len = s.unicode_len();
    let mut found = false;
    let mut pos: usize = 0;
    let mut i: usize = 0;
    while i < len
        invariant
            len == s@.len(),
            i <= len,
            found ==> pos < i && s@[pos as int] == '/' && forall|k: int|
                pos < k < i ==> s@[k] != '/',
            !found ==> forall|k: int| 0 <= k < i ==> s@[k] != '/',
        decreases len - i,
    {
        if s.get_char(i) == '/' {
            found = true;
            pos = i;
        }
        i += 1;
    }
    if found {
        proof {
            lemma_dirname_at(s@, pos as int);
        }
        Some(s.substring_char(0, pos).to_owned())
    } else {
        None
    }
}

} // verus!
