//! Verified core of a tool-update utility: semantic-version parsing and
//! ordering, release-asset selection, installed-version probing, archive-entry
//! path planning, and the per-tool update decision. I/O (network, processes,
//! the filesystem) lives outside this crate and hands plain values in.
pub mod archive;
pub mod pipeline;
pub mod probe;
pub mod text;
pub mod tool;
pub mod version;
