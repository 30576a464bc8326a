use vstd::prelude::*;

verus! {

/// The column that orders the rows of a report.
#[derive(Clone, Copy, Debug, PartialEq, Eq, Structural)]
pub enum SortKey {
    Lines,
    Code,
    Blank,
    Comment,
    Name,
}

/// What a run is asked to do.
#[derive(Debug)]
pub struct Args {
    /// Paths to count (files or directories).
    pub paths: Vec<String>,
    /// Output as JSON.
    pub json: bool,
    /// Output as CSV.
    pub csv: bool,
    /// Show a per-file breakdown.
    pub by_file: bool,
    /// The column that orders the output.
    pub sort: SortKey,
    /// Skip directories with these names.
    pub exclude_dirs: Vec<String>,
    /// Skip files with these extensions.
    pub exclude_exts: Vec<String>,
    /// Count only these languages.
    pub include_langs: Vec<String>,
    /// Skip files larger than this many bytes.
    pub max_file_size: Option<u64>,
    /// Collect files with `git ls-files`.
    pub git: bool,
}

} // verus!
