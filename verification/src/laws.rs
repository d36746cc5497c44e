//! The guarantees that hold of provisioning, proved once and for all over
//! the semantics: what survives a walk, idempotence, ancestor
//! completeness, conflict failure, the no-parent case and truncation.

use vstd::prelude::*;

use crate::paths::{ancestors, chain, has_sep, lemma_no_sep_no_ancestors};
use crate::semantics::{
    create_file_step, creation_denied, dir_provision, file_provision, provision_chain, Cause,
    EntryKind, IoErrorView,
};

verus! {

broadcast use vstd::seq::group_seq_axioms;

/// Provisioning never removes or alters what already exists: every entry
/// of the old filesystem survives unchanged, and whatever is new is a
/// directory.
pub proof fn lemma_provision_preserves(
    m: Map<Seq<char>, EntryKind>,
    d: Set<Seq<char>>,
    ch: Seq<Seq<char>>,
)
    ensures
        forall|q: Seq<char>|
            #![all_triggers]
            m.contains_key(q) ==> provision_chain(m, d, ch).0.contains_key(q) && provision_chain(
                m,
                d,
                ch,
            ).0[q] == m[q],
        forall|q: Seq<char>|
            #![all_triggers]
            provision_chain(m, d, ch).0.contains_key(q) ==> m.contains_key(q) || provision_chain(
                m,
                d,
                ch,
            ).0[q] == EntryKind::Directory,
    decreases ch.len(),
{
    if ch.len() > 0 {
        let q0 = ch[0];
        let rest = ch.drop_first();
        let outcome = provision_chain(m, d, ch).0;
        if m.contains_key(q0) {
            if m[q0] is Directory {
                lemma_provision_preserves(m, d, rest);
                assert(outcome == provision_chain(m, d, rest).0);
                assert forall|q: Seq<char>| m.contains_key(q) implies outcome.contains_key(q)
                    && outcome[q] == m[q] by {
                    assert(provision_chain(m, d, rest).0.contains_key(q));
                }
            }
        } else if !creation_denied(d, q0) {
            let m1 = m.insert(q0, EntryKind::Directory);
            lemma_provision_preserves(m1, d, rest);
            assert(outcome == provision_chain(m1, d, rest).0);
            assert forall|q: Seq<char>| m.contains_key(q) implies outcome.contains_key(q)
                && outcome[q] == m[q] by {
                assert(m1.contains_key(q));
                assert(m1[q] == m[q]);
                assert(provision_chain(m1, d, rest).0.contains_key(q));
            }
            assert forall|q: Seq<char>| outcome.contains_key(q) implies m.contains_key(q)
                || outcome[q] == EntryKind::Directory by {
                assert(m1.contains_key(q) || outcome[q] == EntryKind::Directory);
                if m1.contains_key(q) && q != q0 {
                    assert(m.contains_key(q));
                }
                if m1.contains_key(q0) {
                    assert(outcome[q0] == m1[q0]);
                }
            }
        }
    }
}

/// After a successful walk, every prefix of the chain exists as a
/// directory.
pub proof fn lemma_provision_chain_all_directories(
    m: Map<Seq<char>, EntryKind>,
    d: Set<Seq<char>>,
    ch: Seq<Seq<char>>,
)
    requires
        provision_chain(m, d, ch).1 is None,
    ensures
        forall|i: int|
            0 <= i < ch.len() ==> provision_chain(m, d, ch).0.contains_key(ch[i])
                && provision_chain(m, d, ch).0[ch[i]] == EntryKind::Directory,
    decreases ch.len(),
{
    if ch.len() > 0 {
        let q0 = ch[0];
        let rest = ch.drop_first();
        let outcome = provision_chain(m, d, ch).0;
        let ghost m1: Map<Seq<char>, EntryKind> = if m.contains_key(q0) {
            m
        } else {
            m.insert(q0, EntryKind::Directory)
        };
        lemma_provision_chain_all_directories(m1, d, rest);
        lemma_provision_preserves(m1, d, rest);
        assert(outcome == provision_chain(m1, d, rest).0);
        assert forall|i: int|
            0 <= i < ch.len() implies outcome.contains_key(ch[i]) && outcome[ch[i]]
            == EntryKind::Directory by {
            if i > 0 {
                assert(rest[i - 1] == ch[i]);
                assert(provision_chain(m1, d, rest).0.contains_key(rest[i - 1]));
            } else {
                assert(m1.contains_key(q0) && m1[q0] == EntryKind::Directory);
                assert(outcome.contains_key(q0) && outcome[q0] == m1[q0]);
            }
        }
    }
}

/// Idempotence: a walk that has succeeded succeeds again on the
/// filesystem it produced, and changes nothing the second time.
pub proof fn lemma_provision_chain_idempotent(
    m: Map<Seq<char>, EntryKind>,
    d: Set<Seq<char>>,
    ch: Seq<Seq<char>>,
)
    requires
        provision_chain(m, d, ch).1 is None,
    ensures
        provision_chain(provision_chain(m, d, ch).0, d, ch) == (
            provision_chain(m, d, ch).0,
            None::<IoErrorView>,
        ),
    decreases ch.len(),
{
    if ch.len() > 0 {
        let q0 = ch[0];
        lemma_provision_chain_all_directories(m, d, ch);
        if m.contains_key(q0) {
            lemma_provision_chain_idempotent(m, d, ch.drop_first());
        } else {
            lemma_provision_chain_idempotent(m.insert(q0, EntryKind::Directory), d, ch.drop_first());
        }
    }
}

/// Idempotence of `ensure_directory`: once it has succeeded on `p`, a
/// second call succeeds as well and yields the identical filesystem.
pub proof fn lemma_ensure_directory_idempotent(
    m: Map<Seq<char>, EntryKind>,
    d: Set<Seq<char>>,
    p: Seq<char>,
)
    requires
        dir_provision(m, d, p).1 is None,
    ensures
        dir_provision(dir_provision(m, d, p).0, d, p) == (
            dir_provision(m, d, p).0,
            None::<IoErrorView>,
        ),
{
    lemma_provision_chain_idempotent(m, d, chain(p));
}

/// Ancestor completeness: after `ensure_directory` succeeds on `p`, every
/// proper ancestor of `p`, and `p` itself, exists as a directory.
pub proof fn lemma_ensure_directory_ancestors(
    m: Map<Seq<char>, EntryKind>,
    d: Set<Seq<char>>,
    p: Seq<char>,
)
    requires
        dir_provision(m, d, p).1 is None,
    ensures
        forall|i: int|
            0 <= i < ancestors(p).len() ==> dir_provision(m, d, p).0.contains_key(ancestors(p)[i])
                && dir_provision(m, d, p).0[ancestors(p)[i]] == EntryKind::Directory,
        p.len() > 0 ==> dir_provision(m, d, p).0.contains_key(p) && dir_provision(m, d, p).0[p]
            == EntryKind::Directory,
{
    lemma_provision_chain_all_directories(m, d, chain(p));
    if p.len() > 0 {
        assert forall|i: int|
            0 <= i < ancestors(p).len() implies dir_provision(m, d, p).0.contains_key(
            ancestors(p)[i],
        ) && dir_provision(m, d, p).0[ancestors(p)[i]] == EntryKind::Directory by {
            assert(chain(p)[i] == ancestors(p)[i]);
        }
        assert(chain(p)[chain(p).len() - 1] == p);
    }
}

/// Conflict failure: when some prefix of the chain is occupied by a
/// non-directory, the walk fails; with nothing write-protected, the
/// failure it reports is the conflict.
pub proof fn lemma_provision_chain_conflict(
    m: Map<Seq<char>, EntryKind>,
    d: Set<Seq<char>>,
    ch: Seq<Seq<char>>,
)
    requires
        exists|i: int| 0 <= i < ch.len() && m.contains_key(ch[i]) && !(m[ch[i]] is Directory),
    ensures
        provision_chain(m, d, ch).1 is Some,
        d == Set::<Seq<char>>::empty() ==> (match provision_chain(m, d, ch).1 {
            Some(e) => e.cause == Cause::Conflict,
            None => false,
        }),
    decreases ch.len(),
{
    let i = choose|i: int| 0 <= i < ch.len() && m.contains_key(ch[i]) && !(m[ch[i]] is Directory);
    let q0 = ch[0];
    if i > 0 && m.contains_key(q0) && m[q0] is Directory {
        assert(ch.drop_first()[i - 1] == ch[i]);
        lemma_provision_chain_conflict(m, d, ch.drop_first());
    } else if i > 0 && !m.contains_key(q0) && !creation_denied(d, q0) {
        let m1 = m.insert(q0, EntryKind::Directory);
        assert(ch[i] != q0);
        assert(m1.contains_key(ch[i]) && !(m1[ch[i]] is Directory));
        assert(ch.drop_first()[i - 1] == ch[i]);
        lemma_provision_chain_conflict(m1, d, ch.drop_first());
    }
}

/// Conflict failure for `ensure_directory`: it fails on `p` when a
/// component of `p` already exists as a non-directory.
pub proof fn lemma_ensure_directory_conflict(
    m: Map<Seq<char>, EntryKind>,
    d: Set<Seq<char>>,
    p: Seq<char>,
)
    requires
        exists|i: int|
            0 <= i < chain(p).len() && m.contains_key(chain(p)[i]) && !(m[chain(p)[i]]
                is Directory),
    ensures
        dir_provision(m, d, p).1 is Some,
        d == Set::<Seq<char>>::empty() ==> (match dir_provision(m, d, p).1 {
            Some(e) => e.cause == Cause::Conflict,
            None => false,
        }),
{
    lemma_provision_chain_conflict(m, d, chain(p));
}

/// No-parent case: a path without a directory component provisions no
/// directory at all — `ensure_file` on it is exactly the single
/// file-creation step, with the filesystem otherwise untouched.
pub proof fn lemma_ensure_file_no_parent(
    m: Map<Seq<char>, EntryKind>,
    d: Set<Seq<char>>,
    p: Seq<char>,
)
    requires
        !has_sep(p),
    ensures
        file_provision(m, d, p) == create_file_step(m, d, p),
{
    lemma_no_sep_no_ancestors(p);
    assert(provision_chain(m, d, ancestors(p)) == (m, None::<IoErrorView>));
}

/// Truncate semantics: `ensure_file` on a path already holding a file
/// succeeds whenever its ancestor walk does, and leaves a zero-length
/// file there.
pub proof fn lemma_ensure_file_truncates(
    m: Map<Seq<char>, EntryKind>,
    d: Set<Seq<char>>,
    p: Seq<char>,
)
    requires
        m.contains_key(p),
        m[p] is File,
        provision_chain(m, d, ancestors(p)).1 is None,
    ensures
        file_provision(m, d, p).1 is None,
        file_provision(m, d, p).0.contains_key(p),
        file_provision(m, d, p).0[p] == (EntryKind::File { len: 0 }),
{
    lemma_provision_preserves(m, d, ancestors(p));
}

} // verus!
