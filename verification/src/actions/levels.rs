//! Collapsing the map to a level: nodes at the level and below are
//! collapsed, those above it expanded.
use crate::actions::view::{set_collapsed, with_collapse_flags};
use crate::app::AppState;
use crate::model::Node;
use crate::tree::{arena_nodes, arena_ok, arena_slots, links_agree, node_children, ranked, tree_wf, TreeView};
use indextree::{Arena, NodeId};
use vstd::prelude::*;

verus! {

/// The node `k` parent links up from `x` (`x` itself for 0; none past a
/// node without a parent).
pub open spec fn ancestor_at(t: TreeView, x: NodeId, k: nat) -> Option<NodeId>
    decreases k,
{
    if k == 0 {
        Some(x)
    } else {
        match ancestor_at(t, x, (k - 1) as nat) {
            Some(y) => t[y].1,
            None => None,
        }
    }
}

/// `x` lies `d` levels below `top` (`top` itself at level 0).
pub open spec fn at_depth(t: TreeView, top: NodeId, x: NodeId, d: nat) -> bool {
    ancestor_at(t, x, d) == Some(top)
}

/// The tree with the nodes of the subtree at `top` collapsed exactly when
/// their level below `top`, plus `base`, is at least `target`; the other
/// nodes keep their flags.
pub open spec fn leveled(t: TreeView, top: NodeId, base: nat, target: nat) -> TreeView {
    with_collapse_flags(
        t,
        |x: NodeId|
            if exists|d: nat| at_depth(t, top, x, d) {
                base + (choose|d: nat| at_depth(t, top, x, d)) >= target
            } else {
                t[x].0.1
            },
    )
}

/// `t1` and `t2` hold the same nodes with the same links.
pub open spec fn same_links(t1: TreeView, t2: TreeView) -> bool {
    &&& t1.dom() == t2.dom()
    &&& forall|x: NodeId| #[trigger] t1.contains_key(x) ==> t1[x].1 == t2[x].1 && t1[x].2 == t2[x].2
}

/// `x` is `id`, or lies below one of the first `i` of `cs`.
spec fn done_below(t: TreeView, id: NodeId, cs: Seq<NodeId>, x: NodeId, i: int) -> bool {
    x == id || exists|j: int, d: nat| 0 <= j < i && at_depth(t, cs[j], x, d)
}

/// Going up stays in the tree and climbs the ranking.
proof fn lemma_climb(t: TreeView, r: Map<NodeId, nat>, x: NodeId, k: nat)
    requires
        links_agree(t),
        ranked(t, r),
        t.contains_key(x),
    ensures
        ancestor_at(t, x, k) matches Some(y) ==> t.contains_key(y) && r[y] >= r[x] + k,
    decreases k,
{
    if k > 0 {
        lemma_climb(t, r, x, (k - 1) as nat);
        if let Some(y) = ancestor_at(t, x, (k - 1) as nat) {
            if let Some(p) = t[y].1 {
                let i = t[p].2.index_of(y);
                assert(t[p].2.contains(y));
                assert(t[p].2[i] == y);
                assert(r[t[p].2[i]] < r[p]);
            }
        }
    }
}

/// Going up `a + b` is going up `a`, then `b`.
proof fn lemma_climb_split(t: TreeView, x: NodeId, a: nat, b: nat)
    ensures
        ancestor_at(t, x, a + b) == match ancestor_at(t, x, a) {
            Some(y) => ancestor_at(t, y, b),
            None => None,
        },
    decreases b,
{
    if b > 0 {
        lemma_climb_split(t, x, a, (b - 1) as nat);
        assert((a + b - 1) as nat == a + (b - 1) as nat);
        match ancestor_at(t, x, a) {
            Some(y) => {},
            None => {},
        }
    }
}

/// A node lies at one level below `top`, at most.
proof fn lemma_one_depth(t: TreeView, r: Map<NodeId, nat>, top: NodeId, x: NodeId, d1: nat, d2: nat)
    requires
        links_agree(t),
        ranked(t, r),
        t.contains_key(x),
        at_depth(t, top, x, d1),
        at_depth(t, top, x, d2),
    ensures
        d1 == d2,
{
    if d1 < d2 {
        lemma_climb_split(t, x, d1, (d2 - d1) as nat);
        lemma_climb(t, r, x, d1);
        lemma_climb(t, r, top, (d2 - d1) as nat);
    } else if d2 < d1 {
        lemma_climb_split(t, x, d2, (d1 - d2) as nat);
        lemma_climb(t, r, x, d2);
        lemma_climb(t, r, top, (d1 - d2) as nat);
    }
}

/// Trees with the same links climb alike.
proof fn lemma_same_climb(t1: TreeView, t2: TreeView, x: NodeId, k: nat)
    requires
        links_agree(t1),
        same_links(t1, t2),
        t1.contains_key(x),
    ensures
        ancestor_at(t1, x, k) == ancestor_at(t2, x, k),
    decreases k,
{
    if k > 0 {
        lemma_same_climb(t1, t2, x, (k - 1) as nat);
        lemma_in_tree(t1, x, (k - 1) as nat);
    }
}

/// Going up from a node of the tree stays in the tree.
proof fn lemma_in_tree(t: TreeView, x: NodeId, k: nat)
    requires
        links_agree(t),
        t.contains_key(x),
    ensures
        ancestor_at(t, x, k) matches Some(y) ==> t.contains_key(y),
    decreases k,
{
    if k > 0 {
        lemma_in_tree(t, x, (k - 1) as nat);
    }
}

/// `x` lies below `c`, a child of `top`, at `d`: then below `top`, at
/// `d + 1`.
proof fn lemma_below_child(t: TreeView, top: NodeId, c: NodeId, x: NodeId, d: nat)
    requires
        links_agree(t),
        t.contains_key(top),
        t[top].2.contains(c),
        at_depth(t, c, x, d),
    ensures
        at_depth(t, top, x, d + 1),
{
    lemma_climb_split(t, x, d, 1);
    let k = t[top].2.index_of(c);
    assert(t[top].2[k] == c);
    assert(ancestor_at(t, c, 1) == t[c].1);
}

/// A step of the loop of `collapse_below`: after the subtree of child `i`
/// is done, node `x` has the flag the loop expects.
proof fn lemma_same_levels(
    t0: TreeView,
    ti: TreeView,
    t1: TreeView,
    goal: TreeView,
    r: Map<NodeId, nat>,
    id: NodeId,
    x: NodeId,
    i: int,
    cs: Seq<NodeId>,
    cur: nat,
    next: nat,
    target: nat,
)
    requires
        tree_wf(t0),
        ranked(t0, r),
        t0.contains_key(id),
        cs == t0[id].2,
        0 <= i < cs.len(),
        cur <= usize::MAX,
        target <= usize::MAX,
        next == if cur < usize::MAX {
            cur + 1
        } else {
            cur
        },
        goal == leveled(t0, id, cur, target),
        same_links(t0, ti),
        t1 == leveled(ti, cs[i], next, target),
        t1.contains_key(x),
        ti[x].0.1 == if done_below(t0, id, cs, x, i) {
            goal[x].0.1
        } else {
            t0[x].0.1
        },
    ensures
        t1[x].0.1 == if done_below(t0, id, cs, x, i + 1) {
            goal[x].0.1
        } else {
            t0[x].0.1
        },
{
    let c = cs[i];
    assert(t0.contains_key(x));
    assert(t0[id].2[i] == c);
    assert(t0.contains_key(c));
    assert(r[c] < r[id]);
    assert forall|d: nat| #[trigger] at_depth(ti, c, x, d) == at_depth(t0, c, x, d) by {
        lemma_same_climb(t0, ti, x, d);
    }
    if exists|d: nat| at_depth(t0, c, x, d) {
        let dc = choose|d: nat| at_depth(t0, c, x, d);
        assert(at_depth(ti, c, x, dc));
        let dt = choose|d: nat| at_depth(ti, c, x, d);
        assert(at_depth(t0, c, x, dt));
        lemma_one_depth(t0, r, c, x, dc, dt);
        lemma_below_child(t0, id, c, x, dc);
        let di = choose|d: nat| at_depth(t0, id, x, d);
        lemma_one_depth(t0, r, id, x, di, dc + 1);
        if x == id {
            lemma_climb(t0, r, id, dc);
        }
        assert(exists|j: int, d: nat| 0 <= j < i + 1 && at_depth(t0, cs[j], x, d)) by {
            assert(at_depth(t0, cs[i], x, dc));
        }
    } else {
        assert(!exists|d: nat| at_depth(ti, c, x, d));
        if exists|j: int, d: nat| 0 <= j < i + 1 && at_depth(t0, cs[j], x, d) {
            let (j, d) = choose|j: int, d: nat| 0 <= j < i + 1 && at_depth(t0, cs[j], x, d);
            assert(j < i);
        }
    }
}

/// After every child's subtree is done, each node has its flag.
proof fn lemma_covered(t0: TreeView, tf: TreeView, r: Map<NodeId, nat>, id: NodeId, x: NodeId, cs: Seq<NodeId>, cur: nat, target: nat)
    requires
        tree_wf(t0),
        ranked(t0, r),
        t0.contains_key(id),
        cs == t0[id].2,
        same_links(t0, tf),
        tf.contains_key(x),
        tf[x].0.0 == t0[x].0.0,
        tf[x].0.2 == t0[x].0.2,
        tf[x].0.1 == if done_below(t0, id, cs, x, cs.len() as int) {
            leveled(t0, id, cur, target)[x].0.1
        } else {
            t0[x].0.1
        },
    ensures
        tf[x] == leveled(t0, id, cur, target)[x],
{
    let goal = leveled(t0, id, cur, target);
    assert(t0.contains_key(x));
    if !(x == id || exists|j: int, d: nat| 0 <= j < cs.len() && at_depth(t0, cs[j], x, d)) {
        if exists|d: nat| at_depth(t0, id, x, d) {
            let d = choose|d: nat| at_depth(t0, id, x, d);
            assert(d > 0);
            let y = ancestor_at(t0, x, (d - 1) as nat);
            lemma_in_tree(t0, x, (d - 1) as nat);
            assert(y is Some);
            let yy = y->0;
            assert(t0[yy].1 == Some(id));
            assert(t0[id].2.contains(yy));
            let j = t0[id].2.index_of(yy);
            assert(cs[j] == yy);
            assert(at_depth(t0, cs[j], x, (d - 1) as nat));
        }
    }
}

/// Collapses the subtree at `id`, whose level is `cur`, to level `target`
/// (see [`leveled`]).
fn collapse_below(tree: &mut Arena<Node>, id: NodeId, cur: usize, target: usize, Ghost(r): Ghost<Map<NodeId, nat>>)
    requires
        arena_ok(*old(tree)),
        arena_nodes(*old(tree)).contains_key(id),
        ranked(arena_nodes(*old(tree)), r),
    ensures
        arena_ok(*final(tree)),
        arena_nodes(*final(tree)) == leveled(arena_nodes(*old(tree)), id, cur as nat, target as nat),
        arena_slots(*final(tree)) == arena_slots(*old(tree)),
    decreases r[id],
{
    let ghost t0 = arena_nodes(*tree);
    let ghost goal = leveled(t0, id, cur as nat, target as nat);
    set_collapsed(tree, id, cur >= target);
    proof {
        let t1 = arena_nodes(*tree);
        assert(t1.dom() =~= t0.dom());
        assert(same_links(t0, t1));
        assert(at_depth(t0, id, id, 0));
        let d0 = choose|d: nat| at_depth(t0, id, id, d);
        lemma_one_depth(t0, r, id, id, 0, d0);
        assert(goal[id].0.1 == (cur >= target));
        assert forall|x: NodeId| #[trigger] t1.contains_key(x) implies {
            &&& t1[x].0.0 == t0[x].0.0
            &&& t1[x].0.2 == t0[x].0.2
            &&& t1[x].0.1 == if done_below(t0, id, t0[id].2, x, 0) {
                goal[x].0.1
            } else {
                t0[x].0.1
            }
        } by {}
    }
    let children = node_children(tree, id);
    let next: usize = if cur < usize::MAX {
        cur + 1
    } else {
        cur
    };
    proof {
        assert(at_depth(t0, id, id, 0));
    }
    let mut i: usize = 0;
    while i < children.len()
        invariant
            arena_ok(*tree),
            arena_slots(*tree) == arena_slots(*old(tree)),
            t0 == arena_nodes(*old(tree)),
            goal == leveled(t0, id, cur as nat, target as nat),
            tree_wf(t0),
            ranked(t0, r),
            t0.contains_key(id),
            children@ == t0[id].2,
            0 <= i <= children@.len(),
            next == if cur < usize::MAX {
                cur + 1
            } else {
                cur as int
            },
            same_links(t0, arena_nodes(*tree)),
            forall|x: NodeId|
                #[trigger] arena_nodes(*tree).contains_key(x) ==> {
                    &&& arena_nodes(*tree)[x].0.0 == t0[x].0.0
                    &&& arena_nodes(*tree)[x].0.2 == t0[x].0.2
                    &&& arena_nodes(*tree)[x].0.1 == if done_below(t0, id, children@, x, i as int) {
                        goal[x].0.1
                    } else {
                        t0[x].0.1
                    }
                },
        decreases children@.len() - i,
    {
        let c = children[i];
        let ghost ti = arena_nodes(*tree);
        proof {
            assert(t0[id].2[i as int] == c);
            assert(t0.contains_key(c));
            assert(r[c] < r[id]);
            assert(ranked(ti, r)) by {
                assert forall|x: NodeId, k: int| ti.contains_key(x) && 0 <= k < ti[x].2.len() implies r[ti[x].2[k]] < r[x] by {
                    assert(t0[x].2 == ti[x].2);
                }
            }
            assert(links_agree(ti)) by {
                assert(tree_wf(ti));
            }
            assert forall|x: NodeId| #[trigger] ti.contains_key(x) implies ti[x].0.1 == if done_below(t0, id, children@, x, i as int) {
                goal[x].0.1
            } else {
                t0[x].0.1
            } by {
                assert(arena_nodes(*tree).contains_key(x));
            }
        }
        collapse_below(tree, c, next, target, Ghost(r));
        proof {
            let t1 = arena_nodes(*tree);
            assert(same_links(t0, t1)) by {
                assert(t1.dom() =~= t0.dom());
            }
            assert forall|x: NodeId| #[trigger] t1.contains_key(x) implies {
                &&& t1[x].0.0 == t0[x].0.0
                &&& t1[x].0.2 == t0[x].0.2
                &&& t1[x].0.1 == if done_below(t0, id, children@, x, i + 1) {
                    goal[x].0.1
                } else {
                    t0[x].0.1
                }
            } by {
                assert(ti.contains_key(x));
                assert(ti[x].0.1 == if done_below(t0, id, children@, x, i as int) {
                    goal[x].0.1
                } else {
                    t0[x].0.1
                });
                lemma_same_levels(t0, ti, t1, goal, r, id, x, i as int, children@, cur as nat, next as nat, target as nat);
            }
        }
        i = i + 1;
    }
    proof {
        let tf = arena_nodes(*tree);
        assert forall|x: NodeId| tf.contains_key(x) implies tf[x] == goal[x] by {
            lemma_covered(t0, tf, r, id, x, children@, cur as nat, target as nat);
        }
        assert(tf =~= goal);
    }
}

/// Collapses the map to `target_level`: the nodes below the root at that
/// level or deeper are collapsed, those above it expanded (the root is at
/// level 0); nodes outside the root's subtree keep their flags.
pub fn collapse_to_level(app: &mut AppState, target_level: usize)
    requires
        old(app).wf(),
        old(app).root_id matches Some(r) ==> old(app).tree_view().contains_key(r),
    ensures
        final(app).wf(),
        final(app).tree_view() == match old(app).root_id {
            Some(r) => leveled(old(app).tree_view(), r, 0, target_level as nat),
            None => old(app).tree_view(),
        },
        *final(app) == (AppState { tree: final(app).tree, ..*old(app) }),
{
    if let Some(root_id) = app.root_id {
        let ghost t = app.tree_view();
        proof {
            crate::tree::lemma_rank_exists(t);
        }
        collapse_below(&mut app.tree, root_id, 0, target_level, Ghost(crate::tree::tree_rank(t)));
    }
}

} // verus!
