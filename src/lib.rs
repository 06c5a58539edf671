//! Working-copy snapshotting and diff-endpoint resolution for a version-control
//! tool, with every rule stated as a contract and proved.

pub mod copies;
pub mod diff;
pub mod help;
pub mod snapshot;
pub mod text;
pub mod unmatched;
pub mod working_copy;
