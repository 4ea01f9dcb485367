//! The command-line options, as plain values.

use vstd::prelude::*;

verus! {

/// A point in time: whole seconds since the Unix epoch (UTC) and the
/// nanoseconds within that second. Later instants compare greater.
#[derive(Clone, Copy, Debug)]
pub struct DateTime {
    pub secs: i64,
    pub nanos: u32,
}

/// `a` is strictly earlier than `b`.
pub open spec fn earlier(a: DateTime, b: DateTime) -> bool {
    a.secs < b.secs || (a.secs == b.secs && a.nanos < b.nanos)
}

impl DateTime {
    /// Whether `self` is strictly earlier than `other`.
    pub fn is_before(&self, other: &DateTime) -> (b: bool)
        ensures
            b == earlier(*self, *other),
    {
        self.secs < other.secs || (self.secs == other.secs && self.nanos < other.nanos)
    }
}

/// Options of the fusing command. Paths are text; dates are [`DateTime`]s.
pub struct FusionArgs {
    /// Write to standard output instead of a file.
    pub stdout: bool,
    /// Put a table of contents before the files.
    pub table_of_contents: bool,
    /// The output file.
    pub output: String,
    /// The `Cargo.toml` to start from.
    pub manifest_path: String,
    /// A file whose content goes first.
    pub head: Option<String>,
    /// Maximum directory depth of the search.
    pub depth: Option<usize>,
    /// Whether gitignored files are skipped.
    pub skip_gitignore: bool,
    /// Only report statistics.
    pub info: bool,
    /// Also fuse path dependencies.
    pub dependencies: bool,
    /// Text before each file's path.
    pub separator: String,
    /// Leave out files modified before this instant.
    pub newer_than: Option<DateTime>,
    /// Leave out files modified after this instant.
    pub older_than: Option<DateTime>,
    /// Leave out files larger than this many bytes.
    pub smaller_than: Option<u64>,
    /// Leave out files smaller than this many bytes.
    pub larger_than: Option<u64>,
    /// Keep at most this many files.
    pub max_files: Option<usize>,
    /// Further files or directories to search.
    pub include_paths: Vec<String>,
    /// File extensions to keep.
    pub extension: Vec<String>,
    /// Patterns of files to leave out.
    pub exclude: Vec<String>,
    /// Put the project metadata first.
    pub include_metadata: bool,
    /// Keep `Cargo.lock`.
    pub include_lock: bool,
}

/// The command, as cargo passes it: `cargo fusion <options>`.
pub enum Commands {
    Fusion(FusionArgs),
}

} // verus!
