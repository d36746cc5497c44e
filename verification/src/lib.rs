//! Provisioning of filesystem entries: directories and empty files.
//!
//! The library turns a path string into the guaranteed-present directory or
//! file it denotes, creating every missing ancestor directory on the way.
//! `paths` decomposes a path into its ancestor prefixes, `semantics` states
//! what provisioning does to a filesystem, `fs_model` is an executable
//! filesystem on which the two operations, `ensure_directory` and
//! `ensure_file`, are carried out exactly as stated, and `laws` proves the
//! guarantees that hold of them: idempotence, ancestor completeness,
//! conflict failure, the no-parent case and truncation.

pub mod fs_model;
pub mod laws;
pub mod paths;
pub mod semantics;
