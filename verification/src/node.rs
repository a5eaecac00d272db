use vstd::prelude::*;

verus! {

broadcast use vstd::std_specs::vec::group_vec_axioms;

/// What kind of filesystem object an entry is. A symbolic link is never
/// recursed into, whatever it points at.
#[derive(Clone, Copy, PartialEq, Eq, Structural, Debug)]
pub enum EntryKind {
    Directory,
    File,
    Symlink,
}

/// Why a directory could not be listed. Mirrors the small set of
/// human-readable causes an unreadable directory is classified into.
#[derive(Clone, Copy, PartialEq, Eq, Structural, Debug)]
pub enum AccessError {
    PermissionDenied,
    NotFound,
    Access,
    Unknown,
}

/// One filesystem child, as handed to the core by whoever read the disk:
/// basename, kind, optional size in bytes, optional symlink target, and
/// (for directories) the attempt at listing its children.
pub struct Node {
    pub name: String,
    pub kind: EntryKind,
    /// Size in bytes; `None` when the metadata lookup failed.
    pub size: Option<u64>,
    /// Resolved symlink target; `None` when resolution failed.
    pub link_target: Option<String>,
    /// Children of a directory; meaningless for files and symlinks.
    pub children: Listing,
}

/// The outcome of listing one directory: either its raw children (in
/// whatever order the disk returned them) or the reason it was unreadable.
pub enum Listing {
    Listed(Vec<Node>),
    Unreadable(AccessError),
}

/// Total number of nodes in a listing, counted recursively.
/// Serves as the termination measure for the traversal.
pub open spec fn listing_size(l: Listing) -> nat
    decreases l,
{
    match l {
        Listing::Unreadable(_) => 0,
        Listing::Listed(children) => nodes_size(children@),
    }
}

/// Total number of nodes in a forest.
pub open spec fn nodes_size(s: Seq<Node>) -> nat
    decreases s,
{
    if s.len() == 0 {
        0
    } else {
        1 + listing_size(s.first().children) + nodes_size(s.drop_first())
    }
}

/// Total number of nodes in the subtree rooted at `n`, `n` included.
pub open spec fn node_size(n: Node) -> nat {
    1 + listing_size(n.children)
}

/// Any element of a forest accounts for at most the whole forest's size.
pub proof fn lemma_node_size_le(s: Seq<Node>, i: int)
    requires
        0 <= i < s.len(),
    ensures
        node_size(s[i]) <= nodes_size(s),
    decreases s.len(),
{
    if i == 0 {
        assert(s.first() == s[0]);
    } else {
        lemma_node_size_le(s.drop_first(), i - 1);
        assert(s.drop_first()[i - 1] == s[i]);
    }
}

} // verus!
