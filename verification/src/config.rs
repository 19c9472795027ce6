//! The configuration options given to the program, and the filter policy
//! built from them that the tree walker consults.

use vstd::prelude::*;

verus! {

/// The configuration options specified to the program. The caller parses
/// its external input into these plain values, then hands them to the walk
/// in this convenient structure that encapsulates them.
#[derive(Clone, Copy, Debug)]
pub struct Config {
    /// Whether to show hidden files (`-a`, `--all`).
    pub all_files: bool,
    /// Whether to exclusively show directories (`-d`).
    pub dirs_only: bool,
    /// Whether to show the full path, instead of solely the file name
    /// (`-f`). This only changes which display name the caller stores for
    /// each entry; the traversal itself never reads it.
    pub full_path: bool,
    /// The maximum depth to traverse the directory tree (`-L`).
    pub level: Option<usize>,
}

/// The predicate the walker applies to every entry before the entry is
/// printed, counted, or descended into. Built once from a [`Config`];
/// stateless and reusable across the whole traversal.
#[derive(Clone, Copy, Debug)]
pub struct FilterPolicy {
    /// Keep hidden entries too.
    pub all_files: bool,
    /// Reject entries that are not directories.
    pub dirs_only: bool,
    /// Reject entries deeper than this many levels below the root.
    pub level: Option<usize>,
}

/// Whether the policy accepts an entry with the given hiddenness and
/// classification, listed `depth` levels below the root. A rejected entry
/// is excluded from printing, from counting, and from further recursion.
pub open spec fn spec_accepts(pol: FilterPolicy, hidden: bool, is_dir: bool, depth: nat) -> bool {
    &&& pol.all_files || !hidden
    &&& is_dir || !pol.dirs_only
    &&& match pol.level {
        Some(level) => depth <= level,
        None => true,
    }
}

impl Config {
    /// Bundles the parsed configuration values.
    pub fn new(
        all_files: bool,
        dirs_only: bool,
        full_path: bool,
        level: Option<usize>,
    ) -> (c: Config)
        ensures
            c.all_files == all_files,
            c.dirs_only == dirs_only,
            c.full_path == full_path,
            c.level == level,
    {
        Config { all_files, dirs_only, full_path, level }
    }

    /// Builds the filter predicate that the walker consults for every
    /// entry it enumerates.
    pub fn create_pred(&self) -> (pol: FilterPolicy)
        ensures
            pol.all_files == self.all_files,
            pol.dirs_only == self.dirs_only,
            pol.level == self.level,
    {
        FilterPolicy { all_files: self.all_files, dirs_only: self.dirs_only, level: self.level }
    }
}

impl FilterPolicy {
    /// Answers whether an entry should be visited or printed at all.
    pub fn accepts(&self, hidden: bool, is_dir: bool, depth: usize) -> (r: bool)
        ensures
            r == spec_accepts(*self, hidden, is_dir, depth as nat),
    {
        if !self.all_files && hidden {
            return false;
        }
        if self.dirs_only && !is_dir {
            return false;
        }
        match self.level {
            Some(level) => depth <= level,
            None => true,
        }
    }
}

} // verus!
