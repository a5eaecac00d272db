use vstd::prelude::*;
use vstd::string::StringExecFns;
use crate::args::Args;
use crate::collect::{collect_entries, collect_spec, lemma_collect_contains, lemma_collect_size};
use crate::label::{error_label_spec, format_error_label, format_node_label, label_spec};
use crate::node::{
    lemma_node_size_le, listing_size, nodes_size, AccessError, EntryKind, Listing, Node,
};

verus! {

broadcast use vstd::std_specs::vec::group_vec_axioms;

/// How one output line is classified, for styling and for the counts.
#[derive(Clone, Copy, PartialEq, Eq, Structural, Debug)]
pub enum LineKind {
    Dir,
    File,
    Symlink,
    Error,
}

/// The mathematical model of one output line.
#[verifier::ext_equal]
pub struct LineModel {
    pub prefix: Seq<char>,
    pub connector: Seq<char>,
    pub name: Seq<char>,
    pub label: Seq<char>,
    pub kind: LineKind,
}

/// One line of the rendered tree: the inherited indentation prefix, the
/// branch connector, the entry's basename (empty for error notices),
/// the formatted label, and the line's classification.
pub struct Line {
    pub prefix: String,
    pub connector: String,
    pub name: String,
    pub label: String,
    pub kind: LineKind,
}

impl View for Line {
    type V = LineModel;

    open spec fn view(&self) -> LineModel {
        LineModel {
            prefix: self.prefix@,
            connector: self.connector@,
            name: self.name@,
            label: self.label@,
            kind: self.kind,
        }
    }
}

impl Line {
    /// The plain text of the line, as it is printed.
    pub fn text(&self) -> (r: String)
        ensures
            r@ == self@.prefix + self@.connector + self@.label,
    {
        let mut s = self.prefix.clone();
        s.append(self.connector.as_str());
        s.append(self.label.as_str());
        s
    }
}

/// Branch connector of a non-last sibling.
pub open spec fn tee_connector() -> Seq<char> {
    seq!['\u{251c}', '\u{2500}', '\u{2500}', ' ']
}

/// Branch connector of the last sibling.
pub open spec fn corner_connector() -> Seq<char> {
    seq!['\u{2514}', '\u{2500}', '\u{2500}', ' ']
}

/// What a non-last sibling adds to its children's prefix.
pub open spec fn bar_continuation() -> Seq<char> {
    seq!['\u{2502}', ' ', ' ', ' ']
}

/// What the last sibling adds to its children's prefix.
pub open spec fn blank_continuation() -> Seq<char> {
    seq![' ', ' ', ' ', ' ']
}

pub open spec fn connector_of(is_last: bool) -> Seq<char> {
    if is_last {
        corner_connector()
    } else {
        tee_connector()
    }
}

pub open spec fn continuation_of(is_last: bool) -> Seq<char> {
    if is_last {
        blank_continuation()
    } else {
        bar_continuation()
    }
}

/// The connector glyphs for a sibling.
pub fn connector_str(is_last: bool) -> (r: &'static str)
    ensures
        r@ == connector_of(is_last),
{
    if is_last {
        proof {
            reveal_strlit("\u{2514}\u{2500}\u{2500} ");
            assert("\u{2514}\u{2500}\u{2500} "@ =~= corner_connector());
        }
        "\u{2514}\u{2500}\u{2500} "
    } else {
        proof {
            reveal_strlit("\u{251c}\u{2500}\u{2500} ");
            assert("\u{251c}\u{2500}\u{2500} "@ =~= tee_connector());
        }
        "\u{251c}\u{2500}\u{2500} "
    }
}

/// The continuation a sibling hands down to its children.
pub fn continuation_str(is_last: bool) -> (r: &'static str)
    ensures
        r@ == continuation_of(is_last),
{
    if is_last {
        proof {
            reveal_strlit("    ");
            assert("    "@ =~= blank_continuation());
        }
        "    "
    } else {
        proof {
            reveal_strlit("\u{2502}   ");
            assert("\u{2502}   "@ =~= bar_continuation());
        }
        "\u{2502}   "
    }
}

/// Classification of an entry's line.
pub open spec fn line_kind_of(k: EntryKind) -> LineKind {
    match k {
        EntryKind::Directory => LineKind::Dir,
        EntryKind::File => LineKind::File,
        EntryKind::Symlink => LineKind::Symlink,
    }
}

/// Exec counterpart of `line_kind_of`.
pub fn line_kind_for(k: EntryKind) -> (r: LineKind)
    ensures
        r == line_kind_of(k),
{
    match k {
        EntryKind::Directory => LineKind::Dir,
        EntryKind::File => LineKind::File,
        EntryKind::Symlink => LineKind::Symlink,
    }
}

/// The line one visible sibling produces.
pub open spec fn entry_line(e: Node, prefix: Seq<char>, is_last: bool, args: Args) -> LineModel {
    LineModel {
        prefix: prefix,
        connector: connector_of(is_last),
        name: e.name@,
        label: label_spec(e, args),
        kind: line_kind_of(e.kind),
    }
}

/// The single pseudo-child line of an unreadable directory. It always
/// uses the corner connector and counts for nothing.
pub open spec fn error_line(prefix: Seq<char>, e: AccessError) -> LineModel {
    LineModel {
        prefix: prefix,
        connector: corner_connector(),
        name: Seq::empty(),
        label: error_label_spec(e),
        kind: LineKind::Error,
    }
}

/// Whether the configured maximum depth stops a call at this depth.
pub open spec fn at_depth_limit(args: Args, depth: u32) -> bool {
    match args.depth {
        Some(n) => depth >= n,
        None => false,
    }
}

/// The depth handed to a child call. Saturating, so the counter is
/// total; with a configured limit the saturation point is never
/// reached, and without one the counter is never consulted.
pub open spec fn next_depth(d: u32) -> u32 {
    if d == u32::MAX {
        d
    } else {
        (d + 1) as u32
    }
}

/// The full rendering of one directory level: the lines emitted for the
/// listing of a directory reached with the given prefix and depth, in
/// depth-first, pre-order, sibling-sorted order.
pub open spec fn render_spec(l: Listing, prefix: Seq<char>, args: Args, depth: u32) -> Seq<
    LineModel,
>
    decreases listing_size(l), 2int, 0int,
    via render_spec_decreases
{
    if at_depth_limit(args, depth) {
        Seq::empty()
    } else {
        match l {
            Listing::Unreadable(e) => seq![error_line(prefix, e)],
            Listing::Listed(children) => render_entries(
                collect_spec(children@, args),
                0,
                prefix,
                args,
                depth,
            ),
        }
    }
}

#[via_fn]
proof fn render_spec_decreases(l: Listing, prefix: Seq<char>, args: Args, depth: u32) {
    if !at_depth_limit(args, depth) {
        match l {
            Listing::Listed(children) => {
                lemma_collect_size(children@, args);
            },
            _ => {},
        }
    }
}

/// The lines for the already-collected siblings from index `i` on: each
/// sibling's own line, then its whole subtree, then the rest.
pub open spec fn render_entries(
    entries: Seq<Node>,
    i: int,
    prefix: Seq<char>,
    args: Args,
    depth: u32,
) -> Seq<LineModel>
    decreases nodes_size(entries), 1int, entries.len() - i,
    via render_entries_decreases
{
    if i < 0 || i >= entries.len() {
        Seq::empty()
    } else {
        let e = entries[i];
        let is_last = i == entries.len() - 1;
        let sub = if e.kind is Directory {
            render_spec(e.children, prefix + continuation_of(is_last), args, next_depth(depth))
        } else {
            Seq::empty()
        };
        seq![entry_line(e, prefix, is_last, args)] + sub + render_entries(
            entries,
            i + 1,
            prefix,
            args,
            depth,
        )
    }
}

#[via_fn]
proof fn render_entries_decreases(
    entries: Seq<Node>,
    i: int,
    prefix: Seq<char>,
    args: Args,
    depth: u32,
) {
    if 0 <= i < entries.len() {
        lemma_node_size_le(entries, i);
    }
}

/// How many of the lines are directory lines.
pub open spec fn count_dirs(ms: Seq<LineModel>) -> nat
    decreases ms.len(),
{
    if ms.len() == 0 {
        0
    } else {
        count_dirs(ms.drop_last()) + if ms.last().kind is Dir {
            1nat
        } else {
            0nat
        }
    }
}

/// How many of the lines are file lines (symlinks count as files).
pub open spec fn count_files(ms: Seq<LineModel>) -> nat
    decreases ms.len(),
{
    if ms.len() == 0 {
        0
    } else {
        count_files(ms.drop_last()) + if ms.last().kind is File || ms.last().kind is Symlink {
            1nat
        } else {
            0nat
        }
    }
}

/// Both counts distribute over concatenation.
pub proof fn lemma_counts_concat(a: Seq<LineModel>, b: Seq<LineModel>)
    ensures
        count_dirs(a + b) == count_dirs(a) + count_dirs(b),
        count_files(a + b) == count_files(a) + count_files(b),
    decreases b.len(),
{
    if b.len() == 0 {
        assert(a + b =~= a);
    } else {
        lemma_counts_concat(a, b.drop_last());
        assert((a + b).drop_last() =~= a + b.drop_last());
        assert((a + b).last() == b.last());
    }
}

/// Error lines count for nothing; every other line counts for exactly
/// one of the two counters, so the two counters together never exceed
/// the number of lines.
pub proof fn lemma_counts_le(ms: Seq<LineModel>)
    ensures
        count_dirs(ms) + count_files(ms) <= ms.len(),
    decreases ms.len(),
{
    if ms.len() > 0 {
        lemma_counts_le(ms.drop_last());
    }
}

/// The lines a call returns, matched one for one against their models.
pub open spec fn lines_match(ls: Seq<Line>, ms: Seq<LineModel>) -> bool {
    ls.len() == ms.len() && forall|i: int| 0 <= i < ls.len() ==> ls[i]@ == ms[i]
}

/// Renders the visible children of one directory listing, recursively:
/// one line per visible node (error notices included), in depth-first,
/// pre-order, sibling-sorted order, together with the subtree's totals.
/// The totals count exactly the directory and file lines returned;
/// error notices count for nothing.
#[verifier::loop_isolation(false)]
pub fn print_tree(listing: &Listing, prefix: &String, args: &Args, current_depth: u32) -> (r: (
    Vec<Line>,
    TreeStats,
))
    ensures
        lines_match(r.0@, render_spec(*listing, prefix@, *args, current_depth)),
        r.1.directories == count_dirs(render_spec(*listing, prefix@, *args, current_depth)),
        r.1.files == count_files(render_spec(*listing, prefix@, *args, current_depth)),
    decreases listing_size(*listing),
{
    let ghost full = render_spec(*listing, prefix@, *args, current_depth);
    let mut lines: Vec<Line> = Vec::new();
    let mut stats = TreeStats::new();
    let limited = match args.depth {
        Some(n) => current_depth >= n,
        None => false,
    };
    if limited {
        proof {
            assert(full =~= Seq::<LineModel>::empty());
            assert(count_dirs(full) == 0);
            assert(count_files(full) == 0);
        }
        return (lines, stats);
    }
    match listing {
        Listing::Unreadable(e) => {
            let line = Line {
                prefix: prefix.clone(),
                connector: connector_str(true).to_owned(),
                name: String::new(),
                label: format_error_label(e),
                kind: LineKind::Error,
            };
            proof {
                assert(line@ =~= error_line(prefix@, *e));
            }
            lines.push(line);
            proof {
                assert(full =~= seq![error_line(prefix@, *e)]);
                assert(full.drop_last() =~= Seq::<LineModel>::empty());
                assert(count_dirs(Seq::<LineModel>::empty()) == 0);
                assert(count_files(Seq::<LineModel>::empty()) == 0);
                assert(count_dirs(full) == 0);
                assert(count_files(full) == 0);
            }
            (lines, stats)
        },
        Listing::Listed(children) => {
            let order = collect_entries(children, args);
            let ghost entries_m = collect_spec(children@, *args);
            let ghost done = Seq::<LineModel>::empty();
            proof {
                assert(full == render_entries(entries_m, 0, prefix@, *args, current_depth));
                assert(full =~= done + render_entries(
                    entries_m,
                    0,
                    prefix@,
                    *args,
                    current_depth,
                ));
                lemma_collect_contains(children@, *args);
            }
            let count = order.len();
            let mut j: usize = 0;
            while j < count
                invariant
                    j <= count,
                    count == entries_m.len(),
                    order@.map_values(|n2: &Node| *n2) == entries_m,
                    lines_match(lines@, done),
                    stats.directories == count_dirs(done),
                    stats.files == count_files(done),
                    stats.directories + stats.files <= done.len(),
                    full == done + render_entries(entries_m, j as int, prefix@, *args, current_depth),
                decreases count - j,
            {
                let entry: &Node = order[j];
                proof {
                    assert(entries_m[j as int] == *order@[j as int]);
                }
                let is_last = j == count - 1;
                let ghost e_m = entries_m[j as int];
                let ghost m = entry_line(e_m, prefix@, is_last, *args);
                let ghost sub_m = if e_m.kind is Directory {
                    render_spec(
                        e_m.children,
                        prefix@ + continuation_of(is_last),
                        *args,
                        next_depth(current_depth),
                    )
                } else {
                    Seq::<LineModel>::empty()
                };
                proof {
                    assert(render_entries(entries_m, j as int, prefix@, *args, current_depth)
                        == seq![m] + sub_m + render_entries(
                        entries_m,
                        j + 1,
                        prefix@,
                        *args,
                        current_depth,
                    ));
                }
                let label = format_node_label(entry, args);
                let line = Line {
                    prefix: prefix.clone(),
                    connector: connector_str(is_last).to_owned(),
                    name: entry.name.clone(),
                    label: label,
                    kind: line_kind_for(entry.kind),
                };
                proof {
                    assert(line@ =~= m);
                }
                let ghost done_pre = done;
                let ghost lines_pre = lines@;
                lines.push(line);
                let mut sub_stats = TreeStats::new();
                let ghost subl = Seq::<Line>::empty();
                if entry.kind == EntryKind::Directory {
                    let mut child_prefix = prefix.clone();
                    child_prefix.append(continuation_str(is_last));
                    let next_d = if current_depth == u32::MAX {
                        current_depth
                    } else {
                        current_depth + 1
                    };
                    proof {
                        assert(children@.contains(collect_spec(children@, *args)[j as int]));
                        let w = choose|w: int| 0 <= w < children@.len() && children@[w] == e_m;
                        lemma_node_size_le(children@, w);
                        assert(listing_size(entry.children) < listing_size(*listing));
                    }
                    let sub = print_tree(&entry.children, &child_prefix, args, next_d);
                    let mut sub_lines = sub.0;
                    sub_stats = sub.1;
                    proof {
                        subl = sub_lines@;
                        assert(lines_match(subl, sub_m));
                    }
                    lines.append(&mut sub_lines);
                } else {
                    proof {
                        assert(sub_m =~= Seq::<LineModel>::empty());
                        assert(lines_match(subl, sub_m));
                    }
                }
                proof {
                    done = done_pre + seq![m] + sub_m;
                    assert(lines@ =~= lines_pre + seq![line] + subl);
                    lemma_counts_concat(done_pre + seq![m], sub_m);
                    lemma_counts_concat(done_pre, seq![m]);
                    assert(seq![m].drop_last() =~= Seq::<LineModel>::empty());
                    assert(count_dirs(Seq::<LineModel>::empty()) == 0);
                    assert(count_files(Seq::<LineModel>::empty()) == 0);
                    lemma_counts_le(sub_m);
                    assert(lines_match(lines@, done)) by {
                        assert forall|k: int| 0 <= k < lines@.len() implies lines@[k]@ == done[k] by {
                            if k < lines_pre.len() {
                                assert(lines@[k] == lines_pre[k]);
                                assert(done[k] == done_pre[k]);
                            } else if k == lines_pre.len() {
                                assert(lines@[k] == line);
                                assert(done[k] == m);
                            } else {
                                assert(lines@[k] == subl[k - lines_pre.len() - 1]);
                                assert(done[k] == sub_m[k - done_pre.len() - 1]);
                            }
                        }
                    }
                }
                let total = lines.len();
                proof {
                    assert(total == done.len());
                    assert(usize::MAX <= u64::MAX);
                }
                if entry.kind == EntryKind::Directory {
                    stats.directories = stats.directories + 1;
                } else {
                    stats.files = stats.files + 1;
                }
                stats.add(sub_stats);
                proof {
                    assert(full == done + render_entries(
                        entries_m,
                        j + 1,
                        prefix@,
                        *args,
                        current_depth,
                    )) by {
                        assert(done_pre + (seq![m] + sub_m + render_entries(
                            entries_m,
                            j + 1,
                            prefix@,
                            *args,
                            current_depth,
                        )) =~= done_pre + seq![m] + sub_m + render_entries(
                            entries_m,
                            j + 1,
                            prefix@,
                            *args,
                            current_depth,
                        ));
                    }
                }
                j = j + 1;
            }
            proof {
                assert(render_entries(entries_m, count as int, prefix@, *args, current_depth)
                    =~= Seq::<LineModel>::empty());
                assert(full =~= done);
            }
            (lines, stats)
        },
    }
}

/// The closing one-line summary of a traversal's totals.
pub open spec fn summary_spec(s: TreeStats) -> Seq<char> {
    crate::sizefmt::dec_str(s.directories as nat) + " directories, "@ + crate::sizefmt::dec_str(
        s.files as nat,
    ) + " files"@
}

/// Formats the closing summary line.
pub fn summary_line(stats: &TreeStats) -> (r: String)
    ensures
        r@ == summary_spec(*stats),
{
    let mut s = crate::sizefmt::u64_to_dec(stats.directories);
    s.append(" directories, ");
    let f = crate::sizefmt::u64_to_dec(stats.files);
    s.append(f.as_str());
    s.append(" files");
    proof {
        assert(s@ =~= summary_spec(*stats));
    }
    s
}

/// Running totals of the directory and file lines printed so far.
pub struct TreeStats {
    pub directories: u64,
    pub files: u64,
}

impl TreeStats {
    /// Fresh, empty totals.
    pub fn new() -> (r: TreeStats)
        ensures
            r.directories == 0,
            r.files == 0,
    {
        TreeStats { directories: 0, files: 0 }
    }

    /// Merges a subtree's totals into the running ones.
    pub fn add(&mut self, other: TreeStats)
        requires
            old(self).directories + other.directories <= u64::MAX,
            old(self).files + other.files <= u64::MAX,
        ensures
            final(self).directories == old(self).directories + other.directories,
            final(self).files == old(self).files + other.files,
    {
        self.directories = self.directories + other.directories;
        self.files = self.files + other.files;
    }
}

} // verus!
