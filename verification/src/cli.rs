//! Caller-facing configuration values: the command-line argument record and
//! the form state of a graphical front end. Both are plain data; the layers
//! that actually parse arguments or draw widgets live outside the library and
//! hand these records in.

use vstd::prelude::*;

verus! {

/// Arguments of the command-line front end.
pub struct Cli {
    /// The directory whose contents are scanned. `None` means the caller's
    /// current working directory.
    pub file: Option<String>,
    /// Include directory entries whose names begin with a dot (`.`).
    pub all: bool,
    /// Walk the directory tree top-down instead of reading one directory.
    pub recursive: bool,
    /// How many directory descents the walk may make below the base.
    /// Giving a depth implies a recursive walk.
    pub depth: Option<usize>,
    /// Separator line printed between groups of duplicate files.
    pub seperator: String,
    /// Omit files that are unique.
    pub omit: bool,
    /// Upper bound on the number of worker threads. `None` means the number
    /// of logical cores on the machine.
    pub max_threads: Option<usize>,
}

/// Form state of a graphical front end.
pub struct Gui {
    /// The directory whose contents are scanned.
    pub directory: String,
    /// Include directory entries whose names begin with a dot (`.`).
    pub all: bool,
    /// How deep to walk; `0` asks for a non-recursive scan.
    pub depth: usize,
    /// Omit files that are unique.
    pub omit: bool,
}

} // verus!
