//! How the parser nests entries that are indented two columns per level:
//! each entry's node carries, in its outline, exactly the entries of its
//! block (the entries after it that are indented deeper).
use crate::outline::{children_outline, outline, OutlineEntry};
use crate::parser::{
    entry_children, entry_parent, holds_entries, lemma_no_children_yet, lemma_parent_among, lemma_parent_below,
    nodes_of, parent_among,
};
use crate::tree::{lemma_rank_exists, tree_rank, tree_wf, TreeView};
use indextree::NodeId;
use vstd::prelude::*;

verus! {

/// Depths in the order of a saved outline: the first at 0, the others below
/// it, each at most one deeper than the one before.
pub open spec fn nested(ds: Seq<nat>) -> bool {
    &&& ds.len() > 0 ==> ds[0] == 0
    &&& forall|k: int| 0 < k < ds.len() ==> #[trigger] ds[k] >= 1 && ds[k] <= ds[k - 1] + 1
}

/// Entries indented two columns per level of the depths `ds`.
pub open spec fn tab_entries(e: Seq<(nat, Seq<char>)>, ds: Seq<nat>) -> bool {
    &&& e.len() == ds.len()
    &&& nested(ds)
    &&& forall|k: int| 0 <= k < e.len() ==> #[trigger] e[k].0 == 2 * ds[k]
}

/// The first entry from `j` on that is no deeper than entry `k` (the end
/// when there is none).
pub open spec fn block_end_from(ds: Seq<nat>, k: int, j: int) -> int
    decreases ds.len() - j,
{
    if j >= ds.len() {
        ds.len() as int
    } else if ds[j] <= ds[k] {
        j
    } else {
        block_end_from(ds, k, j + 1)
    }
}

/// The end of the block of entry `k`: the first later entry no deeper than
/// it (the end when there is none).
pub open spec fn block_end(ds: Seq<nat>, k: int) -> int {
    block_end_from(ds, k, k + 1)
}

/// The outline that the entries `a .. b` stand for: each at its depth,
/// with its title, expanded and visible.
pub open spec fn parsed_block(e: Seq<(nat, Seq<char>)>, ds: Seq<nat>, a: int, b: int) -> Seq<OutlineEntry> {
    Seq::new((b - a) as nat, |i: int| (ds[a + i], (e[a + i].1, false, false)))
}

proof fn lemma_block_end_from(ds: Seq<nat>, k: int, j: int)
    requires
        0 <= k < ds.len(),
        k < j <= ds.len(),
        forall|i: int| k < i < j ==> #[trigger] ds[i] > ds[k],
    ensures
        j <= block_end_from(ds, k, j) <= ds.len(),
        forall|i: int| k < i < block_end_from(ds, k, j) ==> #[trigger] ds[i] > ds[k],
        block_end_from(ds, k, j) < ds.len() ==> ds[block_end_from(ds, k, j)] <= ds[k],
    decreases ds.len() - j,
{
    if j < ds.len() && ds[j] > ds[k] {
        lemma_block_end_from(ds, k, j + 1);
    }
}

/// The block of `k` ends after `k`, holds deeper entries only, and is ended
/// by one no deeper than `k`.
pub proof fn lemma_block_end(ds: Seq<nat>, k: int)
    requires
        0 <= k < ds.len(),
    ensures
        k < block_end(ds, k) <= ds.len(),
        forall|i: int| k < i < block_end(ds, k) ==> #[trigger] ds[i] > ds[k],
        block_end(ds, k) < ds.len() ==> ds[block_end(ds, k)] <= ds[k],
{
    lemma_block_end_from(ds, k, k + 1);
}

proof fn lemma_blocks_join(e: Seq<(nat, Seq<char>)>, ds: Seq<nat>, a: int, b: int, c: int)
    requires
        0 <= a <= b <= c,
    ensures
        parsed_block(e, ds, a, b) + parsed_block(e, ds, b, c) == parsed_block(e, ds, a, c),
{
    assert(parsed_block(e, ds, a, b) + parsed_block(e, ds, b, c) =~= parsed_block(e, ds, a, c));
}

/// The parent found among the first `j` entries is the last one indented
/// less; there is one when any of them is indented less.
pub proof fn lemma_parent_last(e: Seq<(nat, Seq<char>)>, k: int, j: int)
    requires
        0 <= j <= e.len(),
    ensures
        parent_among(e, k, j) matches Some(x) ==> forall|i: int| x < i < j ==> #[trigger] e[i].0 >= e[k].0,
        (exists|i: int| 0 <= i < j && #[trigger] e[i].0 < e[k].0) ==> parent_among(e, k, j) is Some,
    decreases j,
{
    if j > 0 {
        lemma_parent_last(e, k, j - 1);
        if e[j - 1].0 >= e[k].0 {
            if exists|i: int| 0 <= i < j && #[trigger] e[i].0 < e[k].0 {
                let i = choose|i: int| 0 <= i < j && #[trigger] e[i].0 < e[k].0;
                assert(i < j - 1);
            }
        }
    }
}

/// Within the block of `k`, an entry hangs under `k` exactly when it is one
/// level deeper.
proof fn lemma_parent_in_block(e: Seq<(nat, Seq<char>)>, ds: Seq<nat>, k: int, j: int)
    requires
        tab_entries(e, ds),
        0 <= k < j < block_end(ds, k),
    ensures
        (entry_parent(e, j) == Some(k)) <==> ds[j] == ds[k] + 1,
{
    lemma_block_end(ds, k);
    assert(e[k].0 == 2 * ds[k]);
    assert(e[j].0 == 2 * ds[j]);
    if ds[j] == ds[k] + 1 {
        assert forall|m: int| k < m < j implies e[m].0 >= e[j].0 by {
            assert(ds[m] > ds[k]);
            assert(e[m].0 == 2 * ds[m]);
        }
        lemma_parent_among(e, j, j, k);
    } else {
        assert(ds[j] > ds[k] + 1);
        lemma_parent_last(e, j, j);
        assert(e[k].0 < e[j].0);
        let x = parent_among(e, j, j)->0;
        if x == k {
            assert(k + 1 < j) by {
                if k + 1 == j {
                    assert(ds[j] <= ds[j - 1] + 1);
                }
            }
            assert(e[k + 1].0 >= e[j].0);
            assert(ds[k + 1] <= ds[k] + 1);
            assert(e[k + 1].0 == 2 * ds[k + 1]);
        }
    }
}

/// Outside the block of `k`, no entry hangs under `k`.
proof fn lemma_parent_outside(e: Seq<(nat, Seq<char>)>, ds: Seq<nat>, k: int, j: int)
    requires
        tab_entries(e, ds),
        0 <= k < e.len(),
        0 <= j < e.len(),
        j <= k || block_end(ds, k) <= j,
    ensures
        entry_parent(e, j) != Some(k),
{
    lemma_parent_below(e, j, j);
    if j > k {
        lemma_block_end(ds, k);
        let m = block_end(ds, k);
        lemma_parent_last(e, j, j);
        if entry_parent(e, j) == Some(k) {
            assert(e[k].0 < e[j].0);
            assert(e[m].0 == 2 * ds[m]);
            assert(e[k].0 == 2 * ds[k]);
            if m < j {
                assert(e[m].0 >= e[j].0);
            }
        }
    }
}

/// The children of `p` among the first `b` entries are those among the
/// first `a`, when no entry from `a` to `b` hangs under `p`.
pub proof fn lemma_children_same_range(e: Seq<(nat, Seq<char>)>, p: Option<int>, a: int, b: int)
    requires
        a <= b,
        forall|i: int| a <= i < b ==> entry_parent(e, i) != p,
    ensures
        entry_children(e, p, b) == entry_children(e, p, a),
    decreases b - a,
{
    if a < b {
        lemma_children_same_range(e, p, a, b - 1);
    }
}

/// The children among the first `a` entries come first among those of the
/// first `b`.
proof fn lemma_children_prefix(e: Seq<(nat, Seq<char>)>, p: Option<int>, a: int, b: int)
    requires
        a <= b,
    ensures
        entry_children(e, p, a).len() <= entry_children(e, p, b).len(),
        forall|c: int|
            0 <= c < entry_children(e, p, a).len() ==> #[trigger] entry_children(e, p, b)[c] == entry_children(
                e,
                p,
                a,
            )[c],
    decreases b - a,
{
    if a < b {
        lemma_children_prefix(e, p, a, b - 1);
    }
}

/// The outline of the node of each entry is the block of the entry.
pub proof fn lemma_block_outline(
    src: TreeView,
    e: Seq<(nat, Seq<char>)>,
    ds: Seq<nat>,
    top: NodeId,
    ids: Seq<NodeId>,
    k: int,
)
    requires
        tree_wf(src),
        holds_entries(src, e, top, ids, e.len() as int),
        tab_entries(e, ds),
        0 <= k < e.len(),
    ensures
        outline(src, ids[k], ds[k], false) == parsed_block(e, ds, k, block_end(ds, k)),
    decreases block_end(ds, k) - k, block_end(ds, k) - k,
{
    let n = e.len() as int;
    lemma_block_end(ds, k);
    let m = block_end(ds, k);
    let x = ids[k];
    let cs = nodes_of(ids, entry_children(e, Some(k), n));
    assert(src[x].2 == cs);
    assert(src[x].0 == (e[k].1, false, false));
    lemma_no_children_yet(e, k, k + 1);
    assert(children_outline(src, x, ds[k] + 1, false, 0) =~= Seq::<OutlineEntry>::empty());
    assert(parsed_block(e, ds, k + 1, k + 1) =~= Seq::<OutlineEntry>::empty());
    if k + 1 < m {
        assert(ds[k + 1] > ds[k]);
        assert(ds[k + 1] <= ds[k] + 1);
    }
    lemma_walk(src, e, ds, top, ids, k, k + 1);
    assert forall|i: int| m <= i < n implies entry_parent(e, i) != Some(k) by {
        lemma_parent_outside(e, ds, k, i);
    }
    lemma_children_same_range(e, Some(k), m, n);
    assert(outline(src, x, ds[k], false) == seq![(ds[k], src[x].0)] + children_outline(
        src,
        x,
        ds[k] + 1,
        false,
        src[x].2.len() as int,
    ));
    assert(seq![(ds[k], src[x].0)] + parsed_block(e, ds, k + 1, m) =~= parsed_block(e, ds, k, m));
}

/// Walking the children of entry `k` block by block: when the outlines of
/// the children up to the boundary `j` give the entries `k + 1 .. j`, the
/// outlines of all of them give the entries of the whole block.
proof fn lemma_walk(
    src: TreeView,
    e: Seq<(nat, Seq<char>)>,
    ds: Seq<nat>,
    top: NodeId,
    ids: Seq<NodeId>,
    k: int,
    j: int,
)
    requires
        tree_wf(src),
        holds_entries(src, e, top, ids, e.len() as int),
        tab_entries(e, ds),
        0 <= k < e.len(),
        k < j <= block_end(ds, k),
        j == block_end(ds, k) || ds[j] == ds[k] + 1,
        children_outline(src, ids[k], ds[k] + 1, false, entry_children(e, Some(k), j).len() as int)
            == parsed_block(e, ds, k + 1, j),
    ensures
        children_outline(src, ids[k], ds[k] + 1, false, entry_children(e, Some(k), block_end(ds, k)).len() as int)
            == parsed_block(e, ds, k + 1, block_end(ds, k)),
    decreases block_end(ds, k) - k, block_end(ds, k) - j,
{
    let n = e.len() as int;
    let m = block_end(ds, k);
    lemma_block_end(ds, k);
    if j < m {
        let x = ids[k];
        lemma_block_end(ds, j);
        let j2 = block_end(ds, j);
        // the block of j lies within the block of k
        assert(j2 <= m) by {
            if m < n {
                assert(ds[m] <= ds[k]);
                if j2 > m {
                    assert(ds[m] > ds[j]);
                }
            }
        }
        assert(j2 == m || ds[j2] == ds[k] + 1) by {
            if j2 < m {
                assert(ds[j2] > ds[k]);
                assert(ds[j2] <= ds[j]);
            }
        }
        // the children: j, then none until j2
        lemma_parent_in_block(e, ds, k, j);
        let c: int = entry_children(e, Some(k), j).len() as int;
        assert(entry_children(e, Some(k), j + 1) == entry_children(e, Some(k), j).push(j));
        assert forall|i: int| j + 1 <= i < j2 implies entry_parent(e, i) != Some(k) by {
            assert(ds[i] > ds[j]);
            lemma_parent_in_block(e, ds, k, i);
        }
        lemma_children_same_range(e, Some(k), j + 1, j2);
        let ec2 = entry_children(e, Some(k), j2);
        assert(ec2.len() == c + 1);
        assert(ec2[c] == j);
        lemma_children_prefix(e, Some(k), j2, n);
        let cs = src[x].2;
        assert(cs == nodes_of(ids, entry_children(e, Some(k), n)));
        assert(entry_children(e, Some(k), n)[c] == j);
        crate::parser::lemma_children_below(e, Some(k), n);
        assert(cs[c] == ids[j]);
        // the child's outline
        lemma_block_outline(src, e, ds, top, ids, j);
        lemma_rank_exists(src);
        assert(tree_rank(src)[ids[j]] < tree_rank(src)[x]);
        assert(children_outline(src, x, ds[k] + 1, false, c + 1) == children_outline(
            src,
            x,
            ds[k] + 1,
            false,
            c as int,
        ) + outline(src, ids[j], ds[k] + 1, false));
        lemma_blocks_join(e, ds, k + 1, j, j2);
        lemma_walk(src, e, ds, top, ids, k, j2);
    }
}

} // verus!
