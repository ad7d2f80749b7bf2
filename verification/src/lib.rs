//! One-way directory mirroring: which files of a destination tree must be
//! added, replaced or deleted so that it matches a filtered view of a source
//! tree, and in which steps each change is applied.
//!
//! The library works on plain values (path strings, byte strings, integers)
//! and never touches a file system itself; a caller lists the trees, reads
//! what the library asks for and carries out the steps it hands back.

pub mod collect;
pub mod equality;
pub mod execute;
pub mod newest;
pub mod order;
pub mod paths;
pub mod pattern;
pub mod pick;
pub mod plan;
pub mod task;
