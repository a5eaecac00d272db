use vstd::prelude::*;
use crate::args::Args;
use crate::collect::{
    collect_spec, is_excluded, is_hidden, lemma_collect_contains, lemma_collect_size, visible_spec,
};
use crate::node::{lemma_node_size_le, listing_size, nodes_size, Listing, Node};
use crate::tree::{
    at_depth_limit, connector_of, continuation_of, entry_line, error_line, next_depth,
    render_entries, render_spec, LineModel,
};

verus! {

/// Every line of a rendering carries at least the call's own prefix
/// length: descendants only ever lengthen the prefix.
pub proof fn lemma_prefix_min(l: Listing, prefix: Seq<char>, args: Args, depth: u32)
    ensures
        forall|k: int|
            0 <= k < render_spec(l, prefix, args, depth).len() ==> (#[trigger] render_spec(
                l,
                prefix,
                args,
                depth,
            )[k]).prefix.len() >= prefix.len(),
    decreases listing_size(l), 2int, 0int,
{
    if !at_depth_limit(args, depth) {
        match l {
            Listing::Unreadable(e) => {
                assert(render_spec(l, prefix, args, depth)[0] == error_line(prefix, e));
            },
            Listing::Listed(children) => {
                lemma_collect_size(children@, args);
                lemma_prefix_min_entries(collect_spec(children@, args), 0, prefix, args, depth);
            },
        }
    }
}

proof fn lemma_prefix_min_entries(
    entries: Seq<Node>,
    i: int,
    prefix: Seq<char>,
    args: Args,
    depth: u32,
)
    ensures
        forall|k: int|
            0 <= k < render_entries(entries, i, prefix, args, depth).len() ==> (
            #[trigger] render_entries(entries, i, prefix, args, depth)[k]).prefix.len()
                >= prefix.len(),
    decreases nodes_size(entries), 1int, entries.len() - i,
{
    if 0 <= i < entries.len() {
        let e = entries[i];
        let is_last = i == entries.len() - 1;
        let line = entry_line(e, prefix, is_last, args);
        let sub = if e.kind is Directory {
            render_spec(e.children, prefix + continuation_of(is_last), args, next_depth(depth))
        } else {
            Seq::<LineModel>::empty()
        };
        let rest = render_entries(entries, i + 1, prefix, args, depth);
        let r = render_entries(entries, i, prefix, args, depth);
        assert(r == seq![line] + sub + rest);
        if e.kind is Directory {
            lemma_node_size_le(entries, i);
            lemma_prefix_min(e.children, prefix + continuation_of(is_last), args, next_depth(depth));
        }
        lemma_prefix_min_entries(entries, i + 1, prefix, args, depth);
        assert forall|k: int| 0 <= k < r.len() implies (#[trigger] r[k]).prefix.len()
            >= prefix.len() by {
            if k == 0 {
                assert(r[0] == line);
            } else if k < 1 + sub.len() {
                assert(r[k] == sub[k - 1]);
                assert((prefix + continuation_of(is_last)).len() == prefix.len() + 4);
            } else {
                assert(r[k] == rest[k - 1 - sub.len()]);
            }
        }
    }
}

/// Depth limiting, first half: a call that has reached the configured
/// maximum depth renders nothing at all.
pub proof fn lemma_depth_limit_stops(
    l: Listing,
    prefix: Seq<char>,
    args: Args,
    depth: u32,
    n: u32,
)
    requires
        args.depth == Some(n),
        depth >= n,
    ensures
        render_spec(l, prefix, args, depth) =~= Seq::<LineModel>::empty(),
{
}

/// Depth limiting, second half: below the maximum depth `n`, every
/// rendered line's prefix stays within `4 * (n - 1 - depth)` characters
/// of the call's own prefix, so entries at depth `n` may appear but
/// their children never do.
pub proof fn lemma_depth_bounded(l: Listing, prefix: Seq<char>, args: Args, depth: u32, n: u32)
    requires
        args.depth == Some(n),
        depth < n,
    ensures
        forall|k: int|
            0 <= k < render_spec(l, prefix, args, depth).len() ==> (#[trigger] render_spec(
                l,
                prefix,
                args,
                depth,
            )[k]).prefix.len() <= prefix.len() + 4 * (n - 1 - depth),
    decreases listing_size(l), 2int, 0int,
{
    if !at_depth_limit(args, depth) {
        match l {
            Listing::Unreadable(e) => {
                assert(render_spec(l, prefix, args, depth)[0] == error_line(prefix, e));
            },
            Listing::Listed(children) => {
                lemma_collect_size(children@, args);
                lemma_depth_bounded_entries(collect_spec(children@, args), 0, prefix, args, depth, n);
            },
        }
    }
}

proof fn lemma_depth_bounded_entries(
    entries: Seq<Node>,
    i: int,
    prefix: Seq<char>,
    args: Args,
    depth: u32,
    n: u32,
)
    requires
        args.depth == Some(n),
        depth < n,
    ensures
        forall|k: int|
            0 <= k < render_entries(entries, i, prefix, args, depth).len() ==> (
            #[trigger] render_entries(entries, i, prefix, args, depth)[k]).prefix.len()
                <= prefix.len() + 4 * (n - 1 - depth),
    decreases nodes_size(entries), 1int, entries.len() - i,
{
    if 0 <= i < entries.len() {
        let e = entries[i];
        let is_last = i == entries.len() - 1;
        let line = entry_line(e, prefix, is_last, args);
        let child_prefix = prefix + continuation_of(is_last);
        let sub = if e.kind is Directory {
            render_spec(e.children, child_prefix, args, next_depth(depth))
        } else {
            Seq::<LineModel>::empty()
        };
        let rest = render_entries(entries, i + 1, prefix, args, depth);
        let r = render_entries(entries, i, prefix, args, depth);
        assert(r == seq![line] + sub + rest);
        if e.kind is Directory {
            lemma_node_size_le(entries, i);
            if depth + 1 < n {
                lemma_depth_bounded(e.children, child_prefix, args, next_depth(depth), n);
            } else {
                assert(at_depth_limit(args, next_depth(depth)));
            }
        }
        lemma_depth_bounded_entries(entries, i + 1, prefix, args, depth, n);
        assert forall|k: int| 0 <= k < r.len() implies (#[trigger] r[k]).prefix.len() <= prefix.len()
            + 4 * (n - 1 - depth) by {
            if k == 0 {
                assert(r[0] == line);
            } else if k < 1 + sub.len() {
                assert(r[k] == sub[k - 1]);
                assert(child_prefix.len() == prefix.len() + 4);
            } else {
                assert(r[k] == rest[k - 1 - sub.len()]);
            }
        }
    }
}

/// Every entry line of a rendering (error notices aside) bears a name
/// that passes the visibility filters: hidden names appear only under
/// `all`, excluded names never.
pub proof fn lemma_lines_visible(l: Listing, prefix: Seq<char>, args: Args, depth: u32)
    ensures
        forall|k: int|
            0 <= k < render_spec(l, prefix, args, depth).len() ==> ((#[trigger] render_spec(
                l,
                prefix,
                args,
                depth,
            )[k]).kind is Error || visible_spec(render_spec(l, prefix, args, depth)[k].name, args)),
    decreases listing_size(l), 2int, 0int,
{
    if !at_depth_limit(args, depth) {
        match l {
            Listing::Unreadable(e) => {
                assert(render_spec(l, prefix, args, depth)[0] == error_line(prefix, e));
            },
            Listing::Listed(children) => {
                lemma_collect_size(children@, args);
                lemma_collect_contains(children@, args);
                lemma_lines_visible_entries(collect_spec(children@, args), 0, prefix, args, depth);
            },
        }
    }
}

proof fn lemma_lines_visible_entries(
    entries: Seq<Node>,
    i: int,
    prefix: Seq<char>,
    args: Args,
    depth: u32,
)
    requires
        forall|t: int| 0 <= t < entries.len() ==> visible_spec(entries[t].name@, args),
    ensures
        forall|k: int|
            0 <= k < render_entries(entries, i, prefix, args, depth).len() ==> ((
            #[trigger] render_entries(entries, i, prefix, args, depth)[k]).kind is Error
                || visible_spec(render_entries(entries, i, prefix, args, depth)[k].name, args)),
    decreases nodes_size(entries), 1int, entries.len() - i,
{
    if 0 <= i < entries.len() {
        let e = entries[i];
        let is_last = i == entries.len() - 1;
        let line = entry_line(e, prefix, is_last, args);
        let sub = if e.kind is Directory {
            render_spec(e.children, prefix + continuation_of(is_last), args, next_depth(depth))
        } else {
            Seq::<LineModel>::empty()
        };
        let rest = render_entries(entries, i + 1, prefix, args, depth);
        let r = render_entries(entries, i, prefix, args, depth);
        assert(r == seq![line] + sub + rest);
        if e.kind is Directory {
            lemma_node_size_le(entries, i);
            lemma_lines_visible(e.children, prefix + continuation_of(is_last), args, next_depth(depth));
        }
        lemma_lines_visible_entries(entries, i + 1, prefix, args, depth);
        assert forall|k: int| 0 <= k < r.len() implies ((#[trigger] r[k]).kind is Error
            || visible_spec(r[k].name, args)) by {
            if k == 0 {
                assert(r[0] == line);
                assert(visible_spec(e.name@, args));
            } else if k < 1 + sub.len() {
                assert(r[k] == sub[k - 1]);
            } else {
                assert(r[k] == rest[k - 1 - sub.len()]);
            }
        }
    }
}

/// Exclusion: a name on the exclusion list never appears as the name
/// of any entry line, at any depth.
pub proof fn lemma_excluded_absent(
    l: Listing,
    prefix: Seq<char>,
    args: Args,
    depth: u32,
    name: Seq<char>,
)
    requires
        is_excluded(name, args.exclude_names()),
    ensures
        forall|k: int|
            0 <= k < render_spec(l, prefix, args, depth).len() ==> ((#[trigger] render_spec(
                l,
                prefix,
                args,
                depth,
            )[k]).kind is Error || render_spec(l, prefix, args, depth)[k].name != name),
{
    lemma_lines_visible(l, prefix, args, depth);
}

/// Hidden-name filtering, restrictive half: without `all`, no entry
/// line bears a hidden name.
pub proof fn lemma_hidden_absent(l: Listing, prefix: Seq<char>, args: Args, depth: u32)
    requires
        !args.all,
    ensures
        forall|k: int|
            0 <= k < render_spec(l, prefix, args, depth).len() ==> ((#[trigger] render_spec(
                l,
                prefix,
                args,
                depth,
            )[k]).kind is Error || !is_hidden(render_spec(l, prefix, args, depth)[k].name)),
{
    lemma_lines_visible(l, prefix, args, depth);
}

/// Per-level completeness: a child of a readable directory stands in
/// the displayed sequence exactly when its name passes the filters.
/// With `all` set, hidden entries are shown like any others.
pub proof fn lemma_visible_iff(children: Seq<Node>, args: Args, x: Node)
    requires
        children.contains(x),
    ensures
        collect_spec(children, args).contains(x) <==> visible_spec(x.name@, args),
{
    lemma_collect_contains(children, args);
    if collect_spec(children, args).contains(x) {
        let k = choose|k: int|
            0 <= k < collect_spec(children, args).len() && collect_spec(children, args)[k] == x;
        assert(visible_spec(collect_spec(children, args)[k].name@, args));
    }
}

/// No element of `s` satisfies the predicate, so the filter is empty.
proof fn lemma_filter_none<A>(s: Seq<A>, pred: spec_fn(A) -> bool)
    requires
        forall|t: int| 0 <= t < s.len() ==> !pred(s[t]),
    ensures
        s.filter(pred) =~= Seq::<A>::empty(),
    decreases s.len(),
{
    reveal(Seq::filter);
    if s.len() > 0 {
        assert(!pred(s.last()));
        assert forall|t: int| 0 <= t < s.drop_last().len() implies !pred(s.drop_last()[t]) by {
            assert(s.drop_last()[t] == s[t]);
        }
        lemma_filter_none(s.drop_last(), pred);
    }
}

/// A filtered singleton keeps or drops its one element.
proof fn lemma_filter_single<A>(x: A, pred: spec_fn(A) -> bool)
    ensures
        pred(x) ==> seq![x].filter(pred) =~= seq![x],
        !pred(x) ==> seq![x].filter(pred) =~= Seq::<A>::empty(),
{
    reveal(Seq::filter);
    assert(seq![x].drop_last() =~= Seq::<A>::empty());
    assert(Seq::<A>::empty().filter(pred) =~= Seq::<A>::empty());
}

/// The lines of one level of a rendering, taken in order: what is
/// emitted for the siblings from `i` on, once all deeper lines (whose
/// prefixes are strictly longer) are filtered out.
#[verifier::rlimit(50)]
proof fn lemma_level_entries(entries: Seq<Node>, i: int, prefix: Seq<char>, args: Args, depth: u32)
    requires
        0 <= i <= entries.len(),
    ensures
        ({
            let lvl = render_entries(entries, i, prefix, args, depth).filter(
                |m: LineModel| m.prefix.len() == prefix.len(),
            );
            &&& lvl.len() == entries.len() - i
            &&& forall|k: int|
                0 <= k < lvl.len() ==> #[trigger] lvl[k] == entry_line(
                    entries[i + k],
                    prefix,
                    i + k == entries.len() - 1,
                    args,
                )
        }),
    decreases entries.len() - i,
{
    let pred = |m: LineModel| m.prefix.len() == prefix.len();
    let r = render_entries(entries, i, prefix, args, depth);
    if i == entries.len() {
        lemma_filter_none(r, pred);
    } else {
        let e = entries[i];
        let is_last = i == entries.len() - 1;
        let line = entry_line(e, prefix, is_last, args);
        let child_prefix = prefix + continuation_of(is_last);
        let sub = if e.kind is Directory {
            render_spec(e.children, child_prefix, args, next_depth(depth))
        } else {
            Seq::<LineModel>::empty()
        };
        let rest = render_entries(entries, i + 1, prefix, args, depth);
        assert(r == seq![line] + sub + rest);
        if e.kind is Directory {
            lemma_prefix_min(e.children, child_prefix, args, next_depth(depth));
        }
        assert forall|t: int| 0 <= t < sub.len() implies !pred(sub[t]) by {
            assert(sub[t].prefix.len() >= child_prefix.len());
            assert(child_prefix.len() == prefix.len() + 4);
        }
        lemma_filter_none(sub, pred);
        lemma_level_entries(entries, i + 1, prefix, args, depth);
        Seq::filter_distributes_over_add(seq![line] + sub, rest, pred);
        Seq::filter_distributes_over_add(seq![line], sub, pred);
        assert(seq![line] + sub + rest =~= (seq![line] + sub) + rest);
        assert(pred(line));
        lemma_filter_single(line, pred);
        let lvl = r.filter(pred);
        let lvl_rest = rest.filter(pred);
        assert(lvl =~= seq![line] + lvl_rest);
        assert forall|k: int| 0 <= k < lvl.len() implies #[trigger] lvl[k] == entry_line(
            entries[i + k],
            prefix,
            i + k == entries.len() - 1,
            args,
        ) by {
            if k > 0 {
                assert(lvl[k] == lvl_rest[k - 1]);
            }
        }
    }
}

/// One level, one corner: among the lines of a single directory level
/// (those carrying that level's own prefix), every sibling but the
/// final one uses the tee connector, and the final line of the level
/// alone uses the corner connector. The lone error notice of an
/// unreadable directory behaves as its only, hence last, pseudo-child.
pub proof fn lemma_level_connectors(l: Listing, prefix: Seq<char>, args: Args, depth: u32)
    ensures
        ({
            let lvl = render_spec(l, prefix, args, depth).filter(
                |m: LineModel| m.prefix.len() == prefix.len(),
            );
            forall|k: int|
                0 <= k < lvl.len() ==> (#[trigger] lvl[k]).connector == connector_of(
                    k == lvl.len() - 1,
                )
        }),
{
    let pred = |m: LineModel| m.prefix.len() == prefix.len();
    let r = render_spec(l, prefix, args, depth);
    if at_depth_limit(args, depth) {
        lemma_filter_none(r, pred);
    } else {
        match l {
            Listing::Unreadable(e) => {
                assert(r =~= seq![error_line(prefix, e)]);
                assert(pred(error_line(prefix, e)));
                lemma_filter_single(error_line(prefix, e), pred);
                assert(r.filter(pred) =~= seq![error_line(prefix, e)]);
            },
            Listing::Listed(children) => {
                let entries = collect_spec(children@, args);
                lemma_level_entries(entries, 0, prefix, args, depth);
                let lvl = r.filter(pred);
                assert(lvl.len() == entries.len());
                assert forall|k: int| 0 <= k < lvl.len() implies (#[trigger] lvl[k]).connector
                    == connector_of(k == lvl.len() - 1) by {
                    assert(lvl[k] == entry_line(entries[k], prefix, k == entries.len() - 1, args));
                }
            },
        }
    }
}

} // verus!
