//! Processing the staged installation tree of a package: the pre-flight
//! check that admits a restricted run only when every input path lies
//! lexically within the build root, and the traversal that hands every
//! regular file to the handlers exactly once.
//!
//! Containment is a matter of the text of a path, component by component.
//! Neither `..` nor a symbolic link is resolved.
//!
//! * [`path`]: what it means for one path to lie within another.
//! * [`config`]: the input paths and the restricted-mode flag of a run.
//! * [`preflight`]: the check that admits or refuses a run.
//! * [`dedup`]: file identities and the set of files already visited.
//! * [`chain`]: the handlers and the order in which they are applied.
//! * [`traversal`]: the walk over one input path.
//!
//! Nothing in this crate reads the environment or the file system. The
//! caller finds out what is there and hands it over as plain values; the
//! crate decides what follows from it.

pub mod chain;
pub mod config;
pub mod dedup;
pub mod path;
pub mod preflight;
pub mod traversal;
