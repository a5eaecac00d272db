use vstd::prelude::*;

verus! {

/// The configuration a traversal runs under. It is built once by the
/// caller (e.g. from command-line flags) and never mutated by the core.
pub struct Args {
    /// Root path to display; the core never opens it itself.
    pub path: String,
    /// Include entries whose basename starts with the hidden marker `.`.
    pub all: bool,
    /// Maximum recursion depth; `None` means unbounded. The root is depth 0.
    pub depth: Option<u32>,
    /// Append a human-readable size to plain files.
    pub size: bool,
    /// Exact basenames to suppress anywhere in the tree.
    pub exclude: Vec<String>,
    /// Suppress icon glyphs in labels.
    pub no_icon: bool,
}

impl Args {
    /// The exclusion list as a sequence of character sequences.
    pub open spec fn exclude_names(self) -> Seq<Seq<char>> {
        self.exclude@.map_values(|s: String| s@)
    }
}

} // verus!
