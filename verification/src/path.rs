//! Paths as character sequences: whether a path lies under a root, how it
//! is rewritten from one root to another, and how deep it is.

use crate::text::{chars_eq, concat, slice_of, starts_with};
use vstd::prelude::*;

verus! {

/// `path` is `root` itself or lies below it: it continues `root` with a `/`.
pub open spec fn under_root(root: Seq<char>, path: Seq<char>) -> bool {
    path == root || root.push('/').is_prefix_of(path)
}

/// `s` without the slashes it begins with.
pub open spec fn trim_slashes(s: Seq<char>) -> Seq<char>
    decreases s.len(),
{
    if s.len() > 0 && s[0] == '/' {
        trim_slashes(s.drop_first())
    } else {
        s
    }
}

/// What is left of `path` below `root`, without leading slashes.
pub open spec fn relative_to(root: Seq<char>, path: Seq<char>) -> Seq<char> {
    trim_slashes(path.skip(root.len() as int))
}

/// `base` continued by the relative path `rel`, with one `/` between them
/// unless `base` is empty or ends in one.
pub open spec fn join(base: Seq<char>, rel: Seq<char>) -> Seq<char> {
    if base.len() == 0 {
        rel
    } else if base.last() == '/' {
        base + rel
    } else {
        base.push('/') + rel
    }
}

/// The path below `host_root` that `path` below `sandbox_root` stands for;
/// none where `path` is not under `sandbox_root`.
pub open spec fn translated(
    host_root: Seq<char>,
    sandbox_root: Seq<char>,
    path: Seq<char>,
) -> Option<Seq<char>> {
    if under_root(sandbox_root, path) {
        let rel = relative_to(sandbox_root, path);
        if rel.len() == 0 {
            Some(host_root)
        } else {
            Some(join(host_root, rel))
        }
    } else {
        None
    }
}

/// Whether `path` is `root` or lies below it.
pub fn is_under_root(root: &[char], path: &[char]) -> (r: bool)
    ensures
        r == under_root(root@, path@),
{
    if chars_eq(path, root) {
        return true;
    }
    let slash: [char; 1] = ['/'];
    let prefix = concat(root, slash.as_slice());
    assert(prefix@ =~= root@.push('/'));
    starts_with(path, prefix.as_slice())
}

/// What is left of `path` below `root`, without leading slashes.
pub fn relative_below(root: &[char], path: &[char]) -> (r: Vec<char>)
    requires
        root@.len() <= path@.len(),
    ensures
        r@ == relative_to(root@, path@),
{
    let mut k: usize = root.len();
    while k < path.len() && path[k] == '/'
        invariant
            root@.len() <= k <= path@.len(),
            relative_to(root@, path@) == trim_slashes(path@.skip(k as int)),
        decreases path.len() - k,
    {
        assert(path@.skip(k as int)[0] == path@[k as int]);
        assert(path@.skip(k as int).drop_first() =~= path@.skip(k + 1));
        k += 1;
    }
    proof {
        let rest = path@.skip(k as int);
        if rest.len() > 0 {
            assert(rest[0] == path@[k as int]);
        }
        assert(rest =~= path@.subrange(k as int, path@.len() as int));
    }
    slice_of(path, k, path.len())
}

/// `base` continued by `rel`.
pub fn join_paths(base: &[char], rel: &[char]) -> (r: Vec<char>)
    ensures
        r@ == join(base@, rel@),
{
    if base.len() == 0 {
        let empty: [char; 0] = [];
        let r = concat(empty.as_slice(), rel);
        assert(r@ =~= rel@);
        r
    } else if base[base.len() - 1] == '/' {
        concat(base, rel)
    } else {
        let slash: [char; 1] = ['/'];
        let with_slash = concat(base, slash.as_slice());
        assert(with_slash@ =~= base@.push('/'));
        concat(with_slash.as_slice(), rel)
    }
}

/// The path below `host_root` that `path` stands for, where `path` is under
/// `sandbox_root`.
pub fn translate_under(host_root: &[char], sandbox_root: &[char], path: &[char]) -> (r: Option<
    Vec<char>,
>)
    ensures
        match translated(host_root@, sandbox_root@, path@) {
            Some(p) => r is Some && r->0@ == p,
            None => r is None,
        },
{
    if !is_under_root(sandbox_root, path) {
        return None;
    }
    let rel = relative_below(sandbox_root, path);
    if rel.len() == 0 {
        let empty: [char; 0] = [];
        let r = concat(host_root, empty.as_slice());
        assert(r@ =~= host_root@);
        Some(r)
    } else {
        Some(join_paths(host_root, rel.as_slice()))
    }
}

/// A path component begins at position `i`: a piece between slashes that is
/// neither empty nor a single dot.
pub open spec fn component_at(s: Seq<char>, i: int) -> bool {
    &&& 0 <= i < s.len()
    &&& s[i] != '/'
    &&& (i == 0 || s[i - 1] == '/')
    &&& !(s[i] == '.' && (i + 1 == s.len() || s[i + 1] == '/'))
}

/// The number of components that begin before position `n`.
pub open spec fn components_before(s: Seq<char>, n: int) -> nat
    decreases n,
{
    if n <= 0 {
        0
    } else {
        components_before(s, n - 1) + if component_at(s, n - 1) {
            1nat
        } else {
            0nat
        }
    }
}

/// The path begins with a root or with a dot of its own, which counts as one
/// more step.
pub open spec fn has_leading_step(s: Seq<char>) -> bool {
    s.len() > 0 && (s[0] == '/' || (s[0] == '.' && (s.len() == 1 || s[1] == '/')))
}

/// How deep a path is: the number of its components, and one more for a
/// leading root or dot. `/agent/special` has depth 3.
pub open spec fn depth(s: Seq<char>) -> nat {
    components_before(s, s.len() as int) + if has_leading_step(s) {
        1nat
    } else {
        0nat
    }
}

/// Fewer components begin before `n` than there are positions, and where the
/// path has a leading step, position 0 begins none.
pub proof fn lemma_components_bound(s: Seq<char>, n: int)
    requires
        0 <= n <= s.len(),
    ensures
        components_before(s, n) <= n,
        has_leading_step(s) && n >= 1 ==> components_before(s, n) <= n - 1,
    decreases n,
{
    if n > 0 {
        lemma_components_bound(s, n - 1);
    }
}

/// How deep `path` is.
pub fn path_depth(path: &[char]) -> (r: usize)
    ensures
        r == depth(path@),
{
    let n = path.len();
    let mut count: usize = 0;
    let mut i: usize = 0;
    while i < n
        invariant
            i <= n,
            n == path@.len(),
            count == components_before(path@, i as int),
        decreases n - i,
    {
        proof {
            lemma_components_bound(path@, i as int);
        }
        let begins = path[i] != '/' && (i == 0 || path[i - 1] == '/');
        let dot = path[i] == '.' && (i + 1 == n || path[i + 1] == '/');
        if begins && !dot {
            count += 1;
        }
        i += 1;
    }
    proof {
        lemma_components_bound(path@, n as int);
    }
    let leading = n > 0 && (path[0] == '/' || (path[0] == '.' && (n == 1 || path[1] == '/')));
    if leading {
        count + 1
    } else {
        count
    }
}

/// Every slash of the path is followed by a component: the path has no
/// trailing slash, no doubled slash and no dot piece behind a slash.
pub open spec fn clean(s: Seq<char>) -> bool {
    forall|i: int| 0 <= i < s.len() && s[i] == '/' ==> component_at(s, i + 1)
}

/// The count of components grows with the position.
pub proof fn lemma_components_monotone(s: Seq<char>, m: int, n: int)
    requires
        m <= n,
    ensures
        components_before(s, m) <= components_before(s, n),
    decreases n - m,
{
    if m < n {
        lemma_components_monotone(s, m, n - 1);
    }
}

/// A path and a longer one that continues it with a slash have the same
/// components up to the end of the shorter.
pub proof fn lemma_components_prefix(a: Seq<char>, b: Seq<char>, n: int)
    requires
        0 <= n <= a.len() <= b.len(),
        forall|i: int| 0 <= i < a.len() ==> a[i] == b[i],
        a.len() == b.len() || b[a.len() as int] == '/',
    ensures
        components_before(a, n) == components_before(b, n),
    decreases n,
{
    if n > 0 {
        lemma_components_prefix(a, b, n - 1);
        assert(component_at(a, n - 1) == component_at(b, n - 1));
    }
}

/// Two roots that `p` lies under continue one another: the shorter is the
/// start of the longer, and where the longer goes on, it goes on with a
/// slash.
pub proof fn lemma_roots_nest(a: Seq<char>, b: Seq<char>, p: Seq<char>)
    requires
        under_root(a, p),
        under_root(b, p),
        a.len() <= b.len(),
    ensures
        forall|i: int| 0 <= i < a.len() ==> a[i] == b[i],
        a.len() == b.len() || b[a.len() as int] == '/',
{
    let la = a.len() as int;
    let lb = b.len() as int;
    assert forall|i: int| 0 <= i < lb implies b[i] == p[i] by {
        if b != p {
            assert(b.push('/')[i] == p.subrange(0, lb + 1)[i]);
        }
    }
    assert forall|i: int| 0 <= i < la implies a[i] == p[i] by {
        if a != p {
            assert(a.push('/')[i] == p.subrange(0, la + 1)[i]);
        }
    }
    if la < lb {
        assert(a != p);
        assert(a.push('/')[la] == p.subrange(0, la + 1)[la]);
    }
}

/// Of two roots that `p` lies under, the longer is at least as deep.
pub proof fn lemma_depth_monotone(a: Seq<char>, b: Seq<char>, p: Seq<char>)
    requires
        under_root(a, p),
        under_root(b, p),
        a.len() <= b.len(),
    ensures
        depth(a) <= depth(b),
{
    lemma_roots_nest(a, b, p);
    lemma_components_prefix(a, b, a.len() as int);
    lemma_components_monotone(b, a.len() as int, b.len() as int);
}

/// Of two roots that `p` lies under, a longer one that is clean is strictly
/// deeper.
pub proof fn lemma_depth_strict(a: Seq<char>, b: Seq<char>, p: Seq<char>)
    requires
        under_root(a, p),
        under_root(b, p),
        a.len() < b.len(),
        clean(b),
    ensures
        depth(a) < depth(b),
{
    let la = a.len() as int;
    lemma_roots_nest(a, b, p);
    lemma_components_prefix(a, b, la);
    assert(component_at(b, la + 1));
    assert(components_before(b, la + 2) == components_before(b, la + 1) + 1);
    lemma_components_monotone(b, la, la + 1);
    lemma_components_monotone(b, la + 2, b.len() as int);
}

} // verus!
