//! Decomposition of a path string into its ancestor prefixes.
//!
//! A path is an opaque string with platform separators; nothing is
//! normalized. The parent of a path is everything before its last separator,
//! and the ancestors of a path are the nonempty prefixes that end just
//! before each separator, shortest first: exactly the directories that must
//! exist before the path itself can be created.

use vstd::prelude::*;

verus! {

broadcast use vstd::seq::group_seq_axioms;

/// The path separator.
pub open spec fn is_sep(c: char) -> bool {
    c == '/'
}

/// Whether `p` contains a separator, i.e. has a directory component.
pub open spec fn has_sep(p: Seq<char>) -> bool {
    exists|i: int| 0 <= i < p.len() && is_sep(p[i])
}

/// The index of the last separator in `p`, or -1 when there is none.
pub open spec fn last_sep(p: Seq<char>) -> int
    decreases p.len(),
{
    if p.len() == 0 {
        -1
    } else if is_sep(p.last()) {
        p.len() - 1
    } else {
        last_sep(p.drop_last())
    }
}

/// `last_sep` finds a separator if and only if one exists, and nothing
/// after it is a separator.
proof fn lemma_last_sep(p: Seq<char>)
    ensures
        -1 <= last_sep(p) < p.len(),
        has_sep(p) <==> 0 <= last_sep(p),
        0 <= last_sep(p) ==> is_sep(p[last_sep(p)]),
        forall|k: int| last_sep(p) < k < p.len() ==> !is_sep(p[k]),
    decreases p.len(),
{
    if p.len() == 0 {
    } else if is_sep(p.last()) {
        assert(has_sep(p));
    } else {
        lemma_last_sep(p.drop_last());
        assert(forall|i: int| 0 <= i < p.len() - 1 ==> p.drop_last()[i] == p[i]);
        if has_sep(p) {
            let i = choose|i: int| 0 <= i < p.len() && is_sep(p[i]);
            assert(i < p.len() - 1);
            assert(is_sep(p.drop_last()[i]));
            assert(has_sep(p.drop_last()));
        }
        if has_sep(p.drop_last()) {
            let i = choose|i: int| 0 <= i < p.drop_last().len() && is_sep(p.drop_last()[i]);
            assert(is_sep(p[i]));
            assert(has_sep(p));
        }
        assert forall|k: int| last_sep(p) < k < p.len() implies !is_sep(p[k]) by {
            if k < p.len() - 1 {
                assert(p[k] == p.drop_last()[k]);
            } else {
                assert(p[k] == p.last());
            }
        }
    }
}

/// The parent of `p`: everything before the last separator, or nothing
/// when `p` has no directory component.
pub open spec fn parent_view(p: Seq<char>) -> Option<Seq<char>> {
    if has_sep(p) {
        Some(p.subrange(0, last_sep(p)))
    } else {
        None
    }
}

/// The parent of `p`, with the empty path standing in when `p` has none.
pub open spec fn parent_or_empty(p: Seq<char>) -> Seq<char> {
    if has_sep(p) {
        p.subrange(0, last_sep(p))
    } else {
        Seq::empty()
    }
}

/// The nonempty prefixes of `p` ending just before a separator at an index
/// below `n`, shortest first.
pub open spec fn sep_prefixes(p: Seq<char>, n: int) -> Seq<Seq<char>>
    decreases n,
{
    if n <= 0 {
        Seq::empty()
    } else {
        let rest = sep_prefixes(p, n - 1);
        if 0 < n - 1 < p.len() && is_sep(p[n - 1]) {
            rest.push(p.subrange(0, n - 1))
        } else {
            rest
        }
    }
}

/// The proper ancestors of `p`: its nonempty prefixes ending just before a
/// separator, shortest first.
pub open spec fn ancestors(p: Seq<char>) -> Seq<Seq<char>> {
    sep_prefixes(p, p.len() as int)
}

/// The prefixes that directory provisioning walks, ancestor to descendant:
/// every proper ancestor of `p`, then `p` itself.
pub open spec fn chain(p: Seq<char>) -> Seq<Seq<char>> {
    if p.len() == 0 {
        Seq::empty()
    } else {
        ancestors(p).push(p)
    }
}

/// A stretch of characters without a separator contributes no prefix.
proof fn lemma_sep_prefixes_stable(p: Seq<char>, a: int, b: int)
    requires
        a <= b,
        forall|k: int| a <= k < b ==> !is_sep(p[k]),
    ensures
        sep_prefixes(p, b) == sep_prefixes(p, a),
    decreases b - a,
{
    if a < b {
        lemma_sep_prefixes_stable(p, a, b - 1);
    }
}

/// A path whose separators can stand at most at its very start has no
/// ancestor prefixes at all.
proof fn lemma_sep_prefixes_empty(p: Seq<char>, n: int)
    requires
        forall|k: int| 0 < k < n ==> !is_sep(p[k]),
    ensures
        sep_prefixes(p, n) == Seq::<Seq<char>>::empty(),
    decreases n,
{
    if n > 0 {
        lemma_sep_prefixes_empty(p, n - 1);
    }
}

/// Two paths that agree on their first characters have the same prefixes
/// there.
proof fn lemma_sep_prefixes_agree(q: Seq<char>, p: Seq<char>, n: int)
    requires
        n <= q.len() <= p.len(),
        forall|k: int| 0 <= k < q.len() ==> q[k] == p[k],
    ensures
        sep_prefixes(q, n) == sep_prefixes(p, n),
    decreases n,
{
    if n > 0 {
        lemma_sep_prefixes_agree(q, p, n - 1);
        if 0 < n - 1 && is_sep(p[n - 1]) {
            assert(q.subrange(0, n - 1) =~= p.subrange(0, n - 1));
        }
    }
}

/// A path without a directory component has no ancestors.
pub proof fn lemma_no_sep_no_ancestors(p: Seq<char>)
    requires
        !has_sep(p),
    ensures
        ancestors(p) == Seq::<Seq<char>>::empty(),
{
    assert forall|k: int| 0 < k < p.len() implies !is_sep(p[k]) by {
        if is_sep(p[k]) {
            assert(has_sep(p));
        }
    }
    lemma_sep_prefixes_empty(p, p.len() as int);
}

/// Provisioning the parent of `p` walks exactly the proper ancestors of
/// `p`: the chain of the parent (the empty chain when `p` has none) is the
/// ancestor list of `p` itself.
pub proof fn lemma_parent_chain(p: Seq<char>)
    ensures
        chain(parent_or_empty(p)) == ancestors(p),
{
    lemma_last_sep(p);
    if !has_sep(p) {
        lemma_no_sep_no_ancestors(p);
    } else {
        let j = last_sep(p);
        let q = p.subrange(0, j);
        if j == 0 {
            assert(q.len() == 0);
            lemma_sep_prefixes_empty(p, p.len() as int);
        } else {
            lemma_sep_prefixes_stable(p, j + 1, p.len() as int);
            lemma_sep_prefixes_agree(q, p, j);
            assert(sep_prefixes(p, j + 1) == sep_prefixes(p, j).push(q));
            assert(chain(q) == sep_prefixes(q, j).push(q));
        }
    }
}

/// Locates the last separator of `path`, scanning every character.
fn last_sep_index(path: &str) -> (r: Option<usize>)
    ensures
        match r {
            Some(j) => has_sep(path@) && j == last_sep(path@),
            None => !has_sep(path@),
        },
{
    let n = path.unicode_len();
    let mut best: Option<usize> = None;
    let mut i: usize = 0;
    while i < n
        invariant
            i <= n,
            n == path@.len(),
            match best {
                Some(j) => j < i && is_sep(path@[j as int]) && (forall|k: int|
                    j < k < i ==> !is_sep(path@[k])),
                None => forall|k: int| 0 <= k < i ==> !is_sep(path@[k]),
            },
        decreases n - i,
    {
        let c = path.get_char(i);
        if c == '/' {
            best = Some(i);
        }
        i += 1;
    }
    proof {
        lemma_last_sep(path@);
        match best {
            Some(j) => {
                assert(has_sep(path@));
                if last_sep(path@) < j {
                    assert(!is_sep(path@[j as int]));
                }
                if j < last_sep(path@) {
                    assert(!is_sep(path@[last_sep(path@)]));
                }
            },
            None => {
                if has_sep(path@) {
                    assert(!is_sep(path@[last_sep(path@)]));
                }
            },
        }
    }
    best
}

/// The parent of `path`: everything before the final separator. A path
/// without a separator has no parent.
pub fn parent_of(path: &str) -> (r: Option<String>)
    ensures
        match r {
            Some(s) => has_sep(path@) && Some(s@) == parent_view(path@),
            None => !has_sep(path@),
        },
{
    proof {
        lemma_last_sep(path@);
    }
    match last_sep_index(path) {
        Some(j) => Some(path.substring_char(0, j).to_owned()),
        None => None,
    }
}

/// Every proper ancestor prefix of `path`, shortest first.
pub fn ancestor_prefixes(path: &str) -> (r: Vec<String>)
    ensures
        r@.map_values(|s: String| s@) == ancestors(path@),
{
    let n = path.unicode_len();
    let mut out: Vec<String> = Vec::new();
    let mut i: usize = 0;
    while i < n
        invariant
            i <= n,
            n == path@.len(),
            out@.map_values(|s: String| s@) == sep_prefixes(path@, i as int),
        decreases n - i,
    {
        let c = path.get_char(i);
        if i > 0 && c == '/' {
            let pre = path.substring_char(0, i).to_owned();
            proof {
                assert(out@.push(pre).map_values(|s: String| s@) =~= out@.map_values(
                    |s: String| s@,
                ).push(pre@));
            }
            out.push(pre);
        }
        i += 1;
    }
    out
}

/// The chain of prefixes that directory provisioning walks: every proper
/// ancestor of `path`, then `path` itself.
pub fn chain_of(path: &str) -> (r: Vec<String>)
    ensures
        r@.map_values(|s: String| s@) == chain(path@),
{
    let mut out = ancestor_prefixes(path);
    if !path.is_empty() {
        let whole = path.to_owned();
        proof {
            assert(out@.push(whole).map_values(|s: String| s@) =~= out@.map_values(
                |s: String| s@,
            ).push(whole@));
        }
        out.push(whole);
    }
    out
}

} // verus!
