//! Asset-resolution and archival helpers for Linux application bundles.
//!
//! The library resolves a mixed set of icon source files into a canonical,
//! deduplicated set of themed PNG files, serializes a directory tree into a
//! tar-then-gzip artifact, and offers the small filesystem-adjacent helpers
//! (size aggregation, content checksums, desktop-entry templating) that the
//! bundling step needs. All filesystem traffic is left to the caller: the
//! functions here work on paths, byte buffers and plain values.

use vstd::prelude::*;

pub mod numtext;
pub mod paths;
pub mod icons;
pub mod archive;
pub mod desktop;
pub mod checksum;
pub mod size;

verus! {

/// Identity key for icon deduplication: two sources mapping to the same
/// `(width, height, high_density)` triple are redundant.
#[derive(Clone, Copy, Debug, PartialEq, Eq, Structural)]
pub struct IconKey {
    pub width: u32,
    pub height: u32,
    pub high_density: bool,
}

} // verus!
