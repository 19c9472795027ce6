//! A directory-tree listing library: given an in-memory snapshot of a
//! directory hierarchy, it renders the entries as an indented tree using
//! box-drawing characters, tallies how many directories and files were
//! visited, and applies the configured filters (hidden entries, directories
//! only, maximum depth).
//!
//! The caller reads the filesystem into an [`walk::Entry`] tree and prints
//! the lines that [`walk::walk`] produces; everything in between — which
//! entries are kept, the glyph each line starts with, the prefix a child
//! inherits, and the final tally — is computed and verified here.

pub mod config;
pub mod constants;
pub mod counter;
pub mod laws;
pub mod render;
pub mod util;
pub mod walk;
