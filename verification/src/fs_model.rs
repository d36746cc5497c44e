//! An executable filesystem on which provisioning is carried out.
//!
//! `FsModel` records which path holds which kind of entry and which
//! directories the caller may not write into. It is kept as a log of
//! recorded entries, a later record for a path superseding an earlier one;
//! its meaning is the map `entries()`. The two provisioning operations,
//! `ensure_directory` and `ensure_file`, transform the filesystem exactly
//! as the functions of `semantics` state.

use vstd::prelude::*;
use vstd::string::*;

use crate::paths::{chain, chain_of, lemma_no_sep_no_ancestors, lemma_parent_chain, parent_of};
use crate::semantics::{
    dir_provision, entry_at, file_provision, provision_chain, Cause, EntryKind, IoError,
    ProvisionResult, Step,
};

verus! {

broadcast use vstd::seq::group_seq_axioms;

/// One record of the model: a path and what occupies it.
struct Node {
    path: String,
    kind: EntryKind,
}

/// The filesystem entries that a log of records denotes; a later record
/// for the same path supersedes an earlier one.
spec fn map_of(nodes: Seq<Node>) -> Map<Seq<char>, EntryKind>
    decreases nodes.len(),
{
    if nodes.len() == 0 {
        Map::empty()
    } else {
        map_of(nodes.drop_last()).insert(nodes.last().path@, nodes.last().kind)
    }
}

/// The set of paths that a list of path strings denotes.
spec fn set_of(ps: Seq<String>) -> Set<Seq<char>>
    decreases ps.len(),
{
    if ps.len() == 0 {
        Set::empty()
    } else {
        set_of(ps.drop_last()).insert(ps.last()@)
    }
}

proof fn lemma_set_of_contains(ps: Seq<String>, p: Seq<char>)
    ensures
        set_of(ps).contains(p) <==> (exists|i: int| 0 <= i < ps.len() && ps[i]@ == p),
    decreases ps.len(),
{
    if ps.len() > 0 {
        lemma_set_of_contains(ps.drop_last(), p);
        if ps.last()@ == p {
            assert(ps[ps.len() - 1]@ == p);
        } else {
            if set_of(ps).contains(p) {
                let i = choose|i: int| 0 <= i < ps.drop_last().len() && ps.drop_last()[i]@ == p;
                assert(ps[i]@ == p);
            }
            if exists|i: int| 0 <= i < ps.len() && ps[i]@ == p {
                let i = choose|i: int| 0 <= i < ps.len() && ps[i]@ == p;
                assert(i < ps.len() - 1);
                assert(ps.drop_last()[i]@ == p);
            }
        }
    }
}

/// An in-memory filesystem, consulted and mutated by the provisioning
/// operations. Nothing beyond it is tracked: it is the sole source of
/// truth for what exists.
pub struct FsModel {
    nodes: Vec<Node>,
    denied: Vec<String>,
}

impl FsModel {
    /// The entries of the filesystem: which path holds which kind of entry.
    pub closed spec fn entries(&self) -> Map<Seq<char>, EntryKind> {
        map_of(self.nodes@)
    }

    /// The directories the caller may not create new entries in.
    pub closed spec fn denied_set(&self) -> Set<Seq<char>> {
        set_of(self.denied@)
    }

    /// How many records the filesystem holds; each creation adds one.
    pub closed spec fn record_total(&self) -> nat {
        self.nodes@.len()
    }

    /// An empty filesystem with no write-protected directory.
    pub fn new() -> (r: FsModel)
        ensures
            r.entries() == Map::<Seq<char>, EntryKind>::empty(),
            r.denied_set() == Set::<Seq<char>>::empty(),
            r.record_total() == 0,
    {
        FsModel { nodes: Vec::new(), denied: Vec::new() }
    }

    fn push_node(&mut self, path: String, kind: EntryKind)
        ensures
            final(self).entries() == old(self).entries().insert(path@, kind),
            final(self).denied_set() == old(self).denied_set(),
            final(self).record_total() == old(self).record_total() + 1,
    {
        let ghost before = self.nodes@;
        self.nodes.push(Node { path, kind });
        proof {
            assert(self.nodes@.drop_last() =~= before);
        }
    }

    /// Records that `path` already holds a file of `len` bytes, as if it
    /// were present before provisioning began.
    pub fn add_file(&mut self, path: &str, len: u64)
        ensures
            final(self).entries() == old(self).entries().insert(path@, (EntryKind::File { len })),
            final(self).denied_set() == old(self).denied_set(),
            final(self).record_total() == old(self).record_total() + 1,
    {
        self.push_node(path.to_owned(), EntryKind::File { len });
    }

    /// Records that `path` already holds a directory.
    pub fn add_dir(&mut self, path: &str)
        ensures
            final(self).entries() == old(self).entries().insert(path@, EntryKind::Directory),
            final(self).denied_set() == old(self).denied_set(),
            final(self).record_total() == old(self).record_total() + 1,
    {
        self.push_node(path.to_owned(), EntryKind::Directory);
    }

    /// Marks `path` as a directory the caller may not create entries in.
    pub fn deny(&mut self, path: &str)
        ensures
            final(self).denied_set() == old(self).denied_set().insert(path@),
            final(self).entries() == old(self).entries(),
            final(self).record_total() == old(self).record_total(),
    {
        let ghost before = self.denied@;
        self.denied.push(path.to_owned());
        proof {
            assert(self.denied@.drop_last() =~= before);
        }
    }

    /// How many records the filesystem holds.
    pub fn record_count(&self) -> (n: usize)
        ensures
            n == self.record_total(),
    {
        self.nodes.len()
    }

    /// The kind of entry at `path`, if any.
    pub fn entry(&self, path: &str) -> (r: Option<EntryKind>)
        ensures
            r == entry_at(self.entries(), path@),
    {
        let probe = path.to_owned();
        let n = self.nodes.len();
        proof {
            assert(self.nodes@.take(n as int) =~= self.nodes@);
        }
        let mut i: usize = n;
        while i > 0
            invariant
                i <= n,
                n == self.nodes@.len(),
                probe@ == path@,
                entry_at(map_of(self.nodes@), path@) == entry_at(
                    map_of(self.nodes@.take(i as int)),
                    path@,
                ),
            decreases i,
        {
            proof {
                assert(self.nodes@.take(i as int).drop_last() =~= self.nodes@.take(i as int - 1));
                assert(self.nodes@.take(i as int).last() == self.nodes@[i as int - 1]);
            }
            if self.nodes[i - 1].path == probe {
                return Some(self.nodes[i - 1].kind);
            }
            i -= 1;
        }
        proof {
            assert(self.nodes@.take(0) =~= Seq::<Node>::empty());
        }
        None
    }

    #[verifier::loop_isolation(false)]
    fn is_denied(&self, path: &String) -> (r: bool)
        ensures
            r == self.denied_set().contains(path@),
    {
        proof {
            lemma_set_of_contains(self.denied@, path@);
        }
        let n = self.denied.len();
        let mut i: usize = 0;
        while i < n
            invariant
                i <= n,
                n == self.denied@.len(),
                forall|k: int| 0 <= k < i ==> self.denied@[k]@ != path@,
            decreases n - i,
        {
            if self.denied[i] == *path {
                proof {
                    assert(self.denied@[i as int]@ == path@);
                }
                return true;
            }
            i += 1;
        }
        false
    }

    /// Ensures that `path` is a directory, creating it and every missing
    /// ancestor directory ancestor to descendant. Directories that already
    /// exist are left alone, so the call is idempotent; directories
    /// created before a failing step stay in place.
    #[verifier::loop_isolation(false)]
    pub fn ensure_directory(&mut self, path: &str) -> (r: ProvisionResult)
        ensures
            final(self).entries() == dir_provision(
                old(self).entries(),
                old(self).denied_set(),
                path@,
            ).0,
            final(self).denied_set() == old(self).denied_set(),
            (match r {
                Ok(()) => dir_provision(old(self).entries(), old(self).denied_set(), path@).1
                    is None,
                Err(e) => Some(e@) == dir_provision(
                    old(self).entries(),
                    old(self).denied_set(),
                    path@,
                ).1,
            }),
    {
        let prefixes = chain_of(path);
        let ghost m0 = self.entries();
        let ghost d = self.denied_set();
        let ghost ch = chain(path@);
        let n = prefixes.len();
        proof {
            assert(ch.skip(0) =~= ch);
        }
        let mut i: usize = 0;
        while i < n
            invariant
                i <= n,
                n == prefixes@.len(),
                prefixes@.map_values(|s: String| s@) == ch,
                self.denied_set() == d,
                provision_chain(m0, d, ch) == provision_chain(
                    self.entries(),
                    d,
                    ch.skip(i as int),
                ),
            decreases n - i,
        {
            let q: &String = &prefixes[i];
            proof {
                assert(ch[i as int] == prefixes@.map_values(|s: String| s@)[i as int]);
                assert(ch.skip(i as int)[0] == ch[i as int]);
                assert(ch.skip(i as int).drop_first() =~= ch.skip(i as int + 1));
            }
            match self.entry(q.as_str()) {
                Some(EntryKind::Directory) => {},
                Some(EntryKind::File { .. }) => {
                    return Err(
                        IoError {
                            step: Step::CreateDirectory,
                            cause: Cause::Conflict,
                            path: q.clone(),
                        },
                    );
                },
                None => {
                    let par = match parent_of(q.as_str()) {
                        Some(s) => s,
                        None => String::new(),
                    };
                    if self.is_denied(&par) {
                        return Err(
                            IoError {
                                step: Step::CreateDirectory,
                                cause: Cause::PermissionDenied,
                                path: q.clone(),
                            },
                        );
                    }
                    self.push_node(q.clone(), EntryKind::Directory);
                },
            }
            i += 1;
        }
        proof {
            assert(ch.skip(n as int) =~= Seq::<Seq<char>>::empty());
        }
        Ok(())
    }

    /// Ensures that the parent directory chain of `path` exists, then
    /// creates an empty file at `path`. A path without a directory
    /// component skips directory creation; a file already at `path` is
    /// replaced by an empty one.
    pub fn ensure_file(&mut self, path: &str) -> (r: ProvisionResult)
        ensures
            final(self).entries() == file_provision(
                old(self).entries(),
                old(self).denied_set(),
                path@,
            ).0,
            final(self).denied_set() == old(self).denied_set(),
            (match r {
                Ok(()) => file_provision(old(self).entries(), old(self).denied_set(), path@).1
                    is None,
                Err(e) => Some(e@) == file_provision(
                    old(self).entries(),
                    old(self).denied_set(),
                    path@,
                ).1,
            }),
    {
        proof {
            lemma_parent_chain(path@);
        }
        let ghost m0 = self.entries();
        let ghost d = self.denied_set();
        match parent_of(path) {
            Some(par) => {
                let dir_outcome = self.ensure_directory(par.as_str());
                if let Err(e) = dir_outcome {
                    return Err(e);
                }
            },
            None => {
                proof {
                    lemma_no_sep_no_ancestors(path@);
                }
            },
        }
        match self.entry(path) {
            Some(EntryKind::File { .. }) => {
                self.push_node(path.to_owned(), EntryKind::File { len: 0 });
                Ok(())
            },
            Some(EntryKind::Directory) => Err(
                IoError { step: Step::CreateFile, cause: Cause::Conflict, path: path.to_owned() },
            ),
            None => {
                let par = match parent_of(path) {
                    Some(s) => s,
                    None => String::new(),
                };
                if self.is_denied(&par) {
                    Err(
                        IoError {
                            step: Step::CreateFile,
                            cause: Cause::PermissionDenied,
                            path: path.to_owned(),
                        },
                    )
                } else {
                    self.push_node(path.to_owned(), EntryKind::File { len: 0 });
                    Ok(())
                }
            },
        }
    }
}

} // verus!
