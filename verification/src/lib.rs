//! A directory-tree visualizer core: given an in-memory snapshot of a
//! directory tree, it decides which entries are visible at each level,
//! orders them, computes the branch connectors and indentation prefixes,
//! formats each node's label (icon, name, symlink target, size), and
//! accumulates directory/file counts.
//!
//! Reading the filesystem, parsing command-line flags and terminal
//! coloring are left to the surrounding application; this crate holds the
//! verified logic only.

pub mod args;
pub mod collect;
pub mod icon;
pub mod label;
pub mod laws;
pub mod node;
pub mod order;
pub mod sizefmt;
pub mod tree;

pub use args::Args;
pub use collect::{collect_entries, visible};
pub use icon::{extension_of, get_icon};
pub use label::{error_message, format_error_label, format_node_label};
pub use node::{AccessError, EntryKind, Listing, Node};
pub use sizefmt::{format_size, u64_to_dec};
pub use tree::{print_tree, summary_line, Line, LineKind, TreeStats};
