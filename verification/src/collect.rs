use vstd::prelude::*;
use crate::args::Args;
use crate::node::{listing_size, node_size, nodes_size, Node};
use crate::order::{lemma_lt_transitive, lemma_lt_trichotomy, name_le, name_less, name_lt, str_eq};
use vstd::string::StrSliceExecFns;

verus! {

/// A basename is hidden when it starts with the hidden marker `.`.
pub open spec fn is_hidden(name: Seq<char>) -> bool {
    name.len() > 0 && name.first() == '.'
}

/// A basename is excluded when it matches one of the configured names
/// exactly.
pub open spec fn is_excluded(name: Seq<char>, excl: Seq<Seq<char>>) -> bool {
    exists|i: int| 0 <= i < excl.len() && excl[i] == name
}

/// Whether an entry with this basename is shown at all under the given
/// configuration. The filters are independent: hidden entries need
/// `all`, excluded names never appear.
pub open spec fn visible_spec(name: Seq<char>, args: Args) -> bool {
    (args.all || !is_hidden(name)) && !is_excluded(name, args.exclude_names())
}

/// Where the sibling sort places a new node: before the first existing
/// node that is strictly greater, hence after any node of equal name
/// (insertion is stable).
pub open spec fn sorted_insert(s: Seq<Node>, n: Node) -> Seq<Node>
    decreases s.len(),
{
    if s.len() == 0 {
        seq![n]
    } else if name_lt(n.name@, s.first().name@) {
        seq![n] + s
    } else {
        seq![s.first()] + sorted_insert(s.drop_first(), n)
    }
}

/// The visible children of one directory, in display order: the raw
/// children filtered by visibility and sorted ascending by basename.
pub open spec fn collect_spec(s: Seq<Node>, args: Args) -> Seq<Node>
    decreases s.len(),
{
    if s.len() == 0 {
        Seq::empty()
    } else {
        let prev = collect_spec(s.drop_last(), args);
        if visible_spec(s.last().name@, args) {
            sorted_insert(prev, s.last())
        } else {
            prev
        }
    }
}

/// Ascending basename order, the only ordering guarantee made.
pub open spec fn sorted_by_name(s: Seq<Node>) -> bool {
    forall|i: int, j: int| 0 <= i < j < s.len() ==> name_le(s[i].name@, s[j].name@)
}

/// Inserting one node grows the forest size by exactly that node's
/// subtree.
pub proof fn lemma_sorted_insert_size(s: Seq<Node>, n: Node)
    ensures
        nodes_size(sorted_insert(s, n)) == nodes_size(s) + node_size(n),
    decreases s.len(),
{
    if s.len() == 0 {
        let r = seq![n];
        assert(r.first() == n);
        assert(r.drop_first() =~= Seq::<Node>::empty());
        assert(nodes_size(Seq::<Node>::empty()) == 0);
        assert(nodes_size(r) == node_size(n));
    } else if name_lt(n.name@, s.first().name@) {
        let r = seq![n] + s;
        assert(r.first() == n);
        assert(r.drop_first() =~= s);
        assert(nodes_size(r) == node_size(n) + nodes_size(s));
    } else {
        lemma_sorted_insert_size(s.drop_first(), n);
        let rr = sorted_insert(s.drop_first(), n);
        let r = seq![s.first()] + rr;
        assert(r.first() == s.first());
        assert(r.drop_first() =~= rr);
        assert(r.len() > 0);
        assert(nodes_size(r) == node_size(s.first()) + nodes_size(rr));
        assert(nodes_size(s) == node_size(s.first()) + nodes_size(s.drop_first()));
    }
}

/// A forest's size decomposes at its last element.
pub proof fn lemma_nodes_size_drop_last(s: Seq<Node>)
    requires
        s.len() > 0,
    ensures
        nodes_size(s) == nodes_size(s.drop_last()) + node_size(s.last()),
    decreases s.len(),
{
    if s.len() == 1 {
        assert(s.drop_last() =~= Seq::<Node>::empty());
        assert(s.drop_first() =~= Seq::<Node>::empty());
    } else {
        lemma_nodes_size_drop_last(s.drop_first());
        assert(s.drop_first().drop_last() =~= s.drop_last().drop_first());
        assert(s.drop_first().last() == s.last());
        assert(s.drop_last().first() == s.first());
    }
}

/// Filtering and sorting never grows the forest.
pub proof fn lemma_collect_size(s: Seq<Node>, args: Args)
    ensures
        nodes_size(collect_spec(s, args)) <= nodes_size(s),
    decreases s.len(),
{
    if s.len() > 0 {
        lemma_collect_size(s.drop_last(), args);
        lemma_nodes_size_drop_last(s);
        if visible_spec(s.last().name@, args) {
            lemma_sorted_insert_size(collect_spec(s.drop_last(), args), s.last());
        }
    }
}

/// Everything in `sorted_insert(s, n)` is `n` or came from `s`, and
/// everything that was in `s` (or is `n`) is still there.
pub proof fn lemma_sorted_insert_contains(s: Seq<Node>, n: Node)
    ensures
        forall|i: int|
            0 <= i < sorted_insert(s, n).len() ==> (sorted_insert(s, n)[i] == n || s.contains(
                sorted_insert(s, n)[i],
            )),
        sorted_insert(s, n).contains(n),
        forall|x: Node| s.contains(x) ==> sorted_insert(s, n).contains(x),
    decreases s.len(),
{
    if s.len() == 0 {
    } else if name_lt(n.name@, s.first().name@) {
        assert(sorted_insert(s, n)[0] == n);
        assert forall|i: int| 0 <= i < sorted_insert(s, n).len() implies (sorted_insert(s, n)[i]
            == n || s.contains(sorted_insert(s, n)[i])) by {
            if i > 0 {
                assert(sorted_insert(s, n)[i] == s[i - 1]);
            }
        }
        assert forall|x: Node| s.contains(x) implies sorted_insert(s, n).contains(x) by {
            let w = choose|w: int| 0 <= w < s.len() && s[w] == x;
            assert(sorted_insert(s, n)[w + 1] == x);
        }
    } else {
        lemma_sorted_insert_contains(s.drop_first(), n);
        let r = sorted_insert(s, n);
        let rr = sorted_insert(s.drop_first(), n);
        assert(r == seq![s.first()] + rr);
        assert forall|i: int| 0 <= i < r.len() implies (r[i] == n || s.contains(r[i])) by {
            if i == 0 {
                assert(s.contains(s.first()));
            } else {
                assert(r[i] == rr[i - 1]);
                if rr[i - 1] != n {
                    let w = choose|w: int| 0 <= w < s.drop_first().len() && s.drop_first()[w]
                        == rr[i - 1];
                    assert(s[w + 1] == rr[i - 1]);
                }
            }
        }
        let wn = choose|w: int| 0 <= w < rr.len() && rr[w] == n;
        assert(r[wn + 1] == n);
        assert forall|x: Node| s.contains(x) implies r.contains(x) by {
            let w = choose|w: int| 0 <= w < s.len() && s[w] == x;
            if w == 0 {
                assert(r[0] == x);
            } else {
                assert(s.drop_first()[w - 1] == x);
                assert(s.drop_first().contains(x));
                assert(rr.contains(x));
                let w2 = choose|w2: int| 0 <= w2 < rr.len() && rr[w2] == x;
                assert(r[w2 + 1] == x);
            }
        }
    }
}

/// What the display order holds: exactly the visible children, each a
/// child of the directory, every visible child among them.
pub proof fn lemma_collect_contains(s: Seq<Node>, args: Args)
    ensures
        forall|i: int|
            0 <= i < collect_spec(s, args).len() ==> s.contains(#[trigger] collect_spec(s, args)[i])
                && visible_spec(collect_spec(s, args)[i].name@, args),
        forall|x: Node| s.contains(x) && visible_spec(x.name@, args) ==> collect_spec(
            s,
            args,
        ).contains(x),
    decreases s.len(),
{
    if s.len() > 0 {
        lemma_collect_contains(s.drop_last(), args);
        let prev = collect_spec(s.drop_last(), args);
        let c = collect_spec(s, args);
        if visible_spec(s.last().name@, args) {
            lemma_sorted_insert_contains(prev, s.last());
            assert forall|i: int| 0 <= i < c.len() implies s.contains(#[trigger] c[i])
                && visible_spec(c[i].name@, args) by {
                if c[i] == s.last() {
                    assert(s[s.len() - 1] == s.last());
                } else {
                    assert(prev.contains(c[i]));
                    let w = choose|w: int| 0 <= w < prev.len() && prev[w] == c[i];
                    assert(s.drop_last().contains(prev[w]));
                    let w2 = choose|w2: int| 0 <= w2 < s.drop_last().len() && s.drop_last()[w2]
                        == c[i];
                    assert(s[w2] == c[i]);
                }
            }
            assert forall|x: Node| s.contains(x) && visible_spec(x.name@, args) implies c.contains(
                x,
            ) by {
                let w = choose|w: int| 0 <= w < s.len() && s[w] == x;
                if w < s.len() - 1 {
                    assert(s.drop_last()[w] == x);
                    assert(s.drop_last().contains(x));
                    assert(prev.contains(x));
                } else {
                    assert(x == s.last());
                }
            }
        } else {
            assert forall|i: int| 0 <= i < c.len() implies s.contains(#[trigger] c[i])
                && visible_spec(c[i].name@, args) by {
                let w = choose|w: int| 0 <= w < s.drop_last().len() && s.drop_last()[w] == c[i];
                assert(s[w] == c[i]);
            }
            assert forall|x: Node| s.contains(x) && visible_spec(x.name@, args) implies c.contains(
                x,
            ) by {
                let w = choose|w: int| 0 <= w < s.len() && s[w] == x;
                assert(w < s.len() - 1);
                assert(s.drop_last()[w] == x);
                assert(s.drop_last().contains(x));
            }
        }
    }
}

/// Stable insertion keeps the sibling order sorted.
pub proof fn lemma_sorted_insert_sorted(s: Seq<Node>, n: Node)
    requires
        sorted_by_name(s),
    ensures
        sorted_by_name(sorted_insert(s, n)),
    decreases s.len(),
{
    let r = sorted_insert(s, n);
    if s.len() == 0 {
    } else if name_lt(n.name@, s.first().name@) {
        assert forall|i: int, j: int| 0 <= i < j < r.len() implies !name_lt(
            r[j].name@,
            r[i].name@,
        ) by {
            if i == 0 {
                assert(r[0] == n);
                assert(r[j] == s[j - 1]);
                if name_lt(s[j - 1].name@, n.name@) {
                    lemma_lt_transitive(s[j - 1].name@, n.name@, s.first().name@);
                    if j - 1 == 0 {
                        lemma_lt_trichotomy(s[0].name@, s[0].name@);
                        assert(s[0].name@ =~= s[0].name@);
                    } else {
                        assert(name_le(s[0].name@, s[j - 1].name@));
                    }
                }
            } else {
                assert(r[i] == s[i - 1]);
                assert(r[j] == s[j - 1]);
                assert(name_le(s[i - 1].name@, s[j - 1].name@));
            }
        }
    } else {
        assert(sorted_by_name(s.drop_first())) by {
            assert forall|i: int, j: int| 0 <= i < j < s.drop_first().len() implies name_le(
                s.drop_first()[i].name@,
                s.drop_first()[j].name@,
            ) by {
                assert(s.drop_first()[i] == s[i + 1]);
                assert(s.drop_first()[j] == s[j + 1]);
                assert(name_le(s[i + 1].name@, s[j + 1].name@));
            }
        }
        lemma_sorted_insert_sorted(s.drop_first(), n);
        lemma_sorted_insert_contains(s.drop_first(), n);
        let rr = sorted_insert(s.drop_first(), n);
        assert forall|i: int, j: int| 0 <= i < j < r.len() implies !name_lt(
            r[j].name@,
            r[i].name@,
        ) by {
            if i == 0 {
                assert(r[j] == rr[j - 1]);
                // r[j] is either n (not below first) or some s element (first is
                // least among them).
                if rr[j - 1] == n {
                    assert(!name_lt(n.name@, s.first().name@));
                } else {
                    assert(s.drop_first().contains(rr[j - 1]));
                    let w = choose|w: int| 0 <= w < s.drop_first().len() && s.drop_first()[w]
                        == rr[j - 1];
                    assert(s[w + 1] == rr[j - 1]);
                    assert(name_le(s[0].name@, s[w + 1].name@));
                }
            } else {
                assert(r[i] == rr[i - 1]);
                assert(r[j] == rr[j - 1]);
                assert(name_le(rr[i - 1].name@, rr[j - 1].name@));
            }
        }
    }
}

/// The display order is sorted ascending by basename; together with the
/// functional contract of `collect_entries` this makes the listing
/// deterministic: the same children and configuration always produce
/// the same ordered sequence.
pub proof fn lemma_collect_sorted(s: Seq<Node>, args: Args)
    ensures
        sorted_by_name(collect_spec(s, args)),
    decreases s.len(),
{
    if s.len() > 0 {
        lemma_collect_sorted(s.drop_last(), args);
        if visible_spec(s.last().name@, args) {
            lemma_sorted_insert_sorted(collect_spec(s.drop_last(), args), s.last());
        }
    }
}

/// Where the scan of the exec insertion stops is exactly where
/// `sorted_insert` places the node.
proof fn lemma_sorted_insert_at(s: Seq<Node>, n: Node, j: int)
    requires
        0 <= j <= s.len(),
        forall|k: int| 0 <= k < j ==> !name_lt(n.name@, s[k].name@),
        j < s.len() ==> name_lt(n.name@, s[j].name@),
    ensures
        sorted_insert(s, n) =~= s.insert(j, n),
    decreases s.len(),
{
    if s.len() == 0 {
        assert(s.insert(0, n) =~= seq![n]);
    } else if j == 0 {
        assert(s.insert(0, n) =~= seq![n] + s);
    } else {
        assert(!name_lt(n.name@, s[0].name@));
        assert forall|k: int| 0 <= k < j - 1 implies !name_lt(n.name@, s.drop_first()[k].name@) by {
            assert(s.drop_first()[k] == s[k + 1]);
        }
        if j - 1 < s.drop_first().len() {
            assert(s.drop_first()[j - 1] == s[j]);
        }
        lemma_sorted_insert_at(s.drop_first(), n, j - 1);
        assert(sorted_insert(s, n) =~= seq![s.first()] + s.drop_first().insert(j - 1, n));
        assert(s.insert(j, n) =~= seq![s.first()] + s.drop_first().insert(j - 1, n));
    }
}

/// Whether this entry passes the hidden and exclusion filters.
pub fn visible(name: &String, args: &Args) -> (r: bool)
    ensures
        r == visible_spec(name@, *args),
{
    if !args.all {
        let s: &str = name.as_str();
        if s.unicode_len() > 0 && s.get_char(0) == '.' {
            return false;
        }
    }
    let ghost excl = args.exclude_names();
    let mut i: usize = 0;
    while i < args.exclude.len()
        invariant
            i <= args.exclude.len(),
            excl == args.exclude_names(),
            excl.len() == args.exclude.len(),
            forall|k: int| 0 <= k < i ==> excl[k] != name@,
        decreases args.exclude.len() - i,
    {
        proof {
            assert(excl[i as int] == args.exclude@[i as int]@);
        }
        if str_eq(name.as_str(), args.exclude[i].as_str()) {
            proof {
                assert(excl[i as int] == name@);
            }
            return false;
        }
        i = i + 1;
    }
    true
}

/// Produces the filtered, sorted, immediate children to display for one
/// directory: exactly `collect_spec` of the raw children.
pub fn collect_entries<'a>(entries: &'a Vec<Node>, args: &Args) -> (r: Vec<&'a Node>)
    ensures
        r@.map_values(|n: &'a Node| *n) == collect_spec(entries@, *args),
{
    let mut out: Vec<&'a Node> = Vec::new();
    proof {
        assert(entries@.take(0) =~= Seq::<Node>::empty());
        assert(out@.map_values(|n: &'a Node| *n) =~= Seq::<Node>::empty());
    }
    let n = entries.len();
    let mut i: usize = 0;
    while i < n
        invariant
            i <= n,
            n == entries@.len(),
            out@.map_values(|n2: &'a Node| *n2) == collect_spec(entries@.take(i as int), *args),
        decreases n - i,
    {
        let e = &entries[i];
        proof {
            assert(entries@.take(i + 1).drop_last() =~= entries@.take(i as int));
            assert(entries@.take(i + 1).last() == entries@[i as int]);
        }
        if visible(&e.name, args) {
            let ghost prev = out@.map_values(|n2: &'a Node| *n2);
            let mut j: usize = 0;
            loop
                invariant
                    j <= out.len(),
                    prev == out@.map_values(|n2: &'a Node| *n2),
                    forall|k: int| 0 <= k < j ==> !name_lt(e.name@, prev[k].name@),
                ensures
                    j <= out.len(),
                    forall|k: int| 0 <= k < j ==> !name_lt(e.name@, prev[k].name@),
                    j < out.len() ==> name_lt(e.name@, prev[j as int].name@),
                    prev == out@.map_values(|n2: &'a Node| *n2),
                decreases out.len() - j,
            {
                if j == out.len() {
                    break ;
                }
                if name_less(e.name.as_str(), out[j].name.as_str()) {
                    proof {
                        assert(prev[j as int] == *out@[j as int]);
                    }
                    break ;
                }
                proof {
                    assert(prev[j as int] == *out@[j as int]);
                }
                j = j + 1;
            }
            out.insert(j, e);
            proof {
                lemma_sorted_insert_at(prev, *e, j as int);
                assert(out@.map_values(|n2: &'a Node| *n2) =~= prev.insert(j as int, *e));
            }
        }
        i = i + 1;
    }
    proof {
        assert(entries@.take(n as int) =~= entries@);
    }
    out
}

} // verus!
