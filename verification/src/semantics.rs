//! What provisioning does to a filesystem.
//!
//! A filesystem is modelled as a map from paths to the kind of entry that
//! occupies them, together with the set of directories into which the
//! caller may not create new entries. The functions here state, path by
//! path, how `ensure_directory` and `ensure_file` transform that map and
//! which failure they report.

use vstd::prelude::*;
use vstd::string::*;

use crate::paths::{ancestors, chain, parent_or_empty};

verus! {

/// What occupies a location in a filesystem: a directory, or a file with
/// its content length.
#[derive(Clone, Copy, PartialEq, Eq, Structural, Debug)]
pub enum EntryKind {
    Directory,
    File { len: u64 },
}

/// The provisioning step in which a failure arose.
#[derive(Clone, Copy, PartialEq, Eq, Structural, Debug)]
pub enum Step {
    CreateDirectory,
    CreateFile,
}

/// The underlying cause of a provisioning failure.
#[derive(Clone, Copy, PartialEq, Eq, Structural, Debug)]
pub enum Cause {
    /// An entry of another kind already occupies the path.
    Conflict,
    /// The caller may not create entries inside the parent directory.
    PermissionDenied,
}

/// A provisioning failure: the step that failed, its underlying cause, and
/// the path at which it arose.
#[derive(Debug)]
pub struct IoError {
    pub step: Step,
    pub cause: Cause,
    pub path: String,
}

/// The mathematical content of an `IoError`.
pub struct IoErrorView {
    pub step: Step,
    pub cause: Cause,
    pub path: Seq<char>,
}

impl View for IoError {
    type V = IoErrorView;

    open spec fn view(&self) -> IoErrorView {
        IoErrorView { step: self.step, cause: self.cause, path: self.path@ }
    }
}

/// The outcome of a provisioning operation: success with no payload, or a
/// failure carrying an operating-system-level error description.
pub type ProvisionResult = Result<(), IoError>;

/// The description `IoError::message` returns.
pub open spec fn message_view(e: IoErrorView) -> Seq<char> {
    (match e.step {
        Step::CreateDirectory => "could not create directory "@,
        Step::CreateFile => "could not create file "@,
    }) + e.path + (match e.cause {
        Cause::Conflict => ": an entry of another kind is in the way"@,
        Cause::PermissionDenied => ": permission denied"@,
    })
}

impl IoError {
    /// A human-readable description of the failure, naming the step that
    /// failed, the path, and the underlying cause.
    pub fn message(&self) -> (r: String)
        ensures
            r@ == message_view(self@),
    {
        let mut s = (match self.step {
            Step::CreateDirectory => "could not create directory ",
            Step::CreateFile => "could not create file ",
        }).to_owned();
        s.append(self.path.as_str());
        s.append(
            match self.cause {
                Cause::Conflict => ": an entry of another kind is in the way",
                Cause::PermissionDenied => ": permission denied",
            },
        );
        s
    }
}

/// The kind of entry at `p`, if any.
pub open spec fn entry_at(m: Map<Seq<char>, EntryKind>, p: Seq<char>) -> Option<EntryKind> {
    if m.contains_key(p) {
        Some(m[p])
    } else {
        None
    }
}

/// Whether creating a new entry at `q` is refused: its parent directory is
/// one the caller may not write into.
pub open spec fn creation_denied(d: Set<Seq<char>>, q: Seq<char>) -> bool {
    d.contains(parent_or_empty(q))
}

/// Directory creation along `ch`, ancestor to descendant. Each prefix that
/// already is a directory is left alone; a missing one is created unless
/// its parent is write-protected; anything else in the way is a conflict.
/// Returns the filesystem after the walk — the prefixes created before a
/// failure stay — and the first failure, if any.
pub open spec fn provision_chain(
    m: Map<Seq<char>, EntryKind>,
    d: Set<Seq<char>>,
    ch: Seq<Seq<char>>,
) -> (Map<Seq<char>, EntryKind>, Option<IoErrorView>)
    decreases ch.len(),
{
    if ch.len() == 0 {
        (m, None)
    } else {
        let q = ch[0];
        if m.contains_key(q) {
            if m[q] is Directory {
                provision_chain(m, d, ch.drop_first())
            } else {
                (m, Some(IoErrorView { step: Step::CreateDirectory, cause: Cause::Conflict, path: q }))
            }
        } else if creation_denied(d, q) {
            (
                m,
                Some(IoErrorView { step: Step::CreateDirectory, cause: Cause::PermissionDenied, path: q }),
            )
        } else {
            provision_chain(m.insert(q, EntryKind::Directory), d, ch.drop_first())
        }
    }
}

/// What `ensure_directory` does to a filesystem: directory creation along
/// the whole prefix chain of `p`, the path itself included.
pub open spec fn dir_provision(
    m: Map<Seq<char>, EntryKind>,
    d: Set<Seq<char>>,
    p: Seq<char>,
) -> (Map<Seq<char>, EntryKind>, Option<IoErrorView>) {
    provision_chain(m, d, chain(p))
}

/// The single file-creation step at `p`: an existing file is replaced by an
/// empty one, a directory in its place is a conflict, and a new file needs
/// the parent to be writable.
pub open spec fn create_file_step(
    m: Map<Seq<char>, EntryKind>,
    d: Set<Seq<char>>,
    p: Seq<char>,
) -> (Map<Seq<char>, EntryKind>, Option<IoErrorView>) {
    if m.contains_key(p) {
        if m[p] is File {
            (m.insert(p, EntryKind::File { len: 0 }), None)
        } else {
            (m, Some(IoErrorView { step: Step::CreateFile, cause: Cause::Conflict, path: p }))
        }
    } else if creation_denied(d, p) {
        (m, Some(IoErrorView { step: Step::CreateFile, cause: Cause::PermissionDenied, path: p }))
    } else {
        (m.insert(p, EntryKind::File { len: 0 }), None)
    }
}

/// What `ensure_file` does to a filesystem: directory creation along the
/// proper ancestors of `p`, then the file-creation step at `p` itself.
pub open spec fn file_provision(
    m: Map<Seq<char>, EntryKind>,
    d: Set<Seq<char>>,
    p: Seq<char>,
) -> (Map<Seq<char>, EntryKind>, Option<IoErrorView>) {
    let dir_outcome = provision_chain(m, d, ancestors(p));
    if dir_outcome.1 is Some {
        dir_outcome
    } else {
        create_file_step(dir_outcome.0, d, p)
    }
}

} // verus!
