//! Yanking subtrees into the map's clipboard (the front end also hands the
//! text to the system clipboard), and pasting the clipboard's text back into
//! the map as new subtrees.
use crate::app::{history_pushed, says, AppState};
use crate::model::{str_eq, Node};
use crate::outline::{children_outline, map_to_list, outline, subtree_text};
use crate::parser::{parse_hmm_content, parsed_as, top_title};
use crate::text::owned;
use crate::tree::{
    arena_get_data, arena_new_node, arena_nodes, arena_ok, lemma_append_wf, lemma_new_node_wf,
    lemma_rank_exists, node_append, node_children, node_insert_after, node_parent, ranked, tree_rank,
    tree_wf,
    TreeView,
};
use indextree::{Arena, NodeId};
use vstd::prelude::*;

verus! {

/// Copies the text of the active node's subtree (the node at the left
/// margin, its descendants indented below it) to the clipboard; the message
/// says "Node yanked". Without an active node nothing happens.
pub fn yank_node(app: &mut AppState)
    requires
        arena_ok(old(app).tree),
        old(app).active_ok(),
    ensures
        old(app).active_node_id is None ==> *final(app) == *old(app),
        old(app).active_node_id matches Some(a) ==> {
            &&& final(app).clipboard matches Some(c) && c@ == subtree_text(old(app).tree_view(), a, false, 0)
            &&& final(app).message matches Some(m) && m@ == "Node yanked"@
            &&& *final(app) == (AppState { clipboard: final(app).clipboard, message: final(app).message, ..*old(app) })
        },
{
    if let Some(active_id) = app.active_node_id {
        let text = map_to_list(&app.tree, active_id, false, 0);
        app.clipboard = Some(text);
        app.set_message(owned("Node yanked"));
    }
}

/// Copies the text of the active node's children's subtrees (each child at
/// the left margin) to the clipboard; the message says "Children yanked".
/// Without an active node nothing happens.
pub fn yank_children(app: &mut AppState)
    requires
        arena_ok(old(app).tree),
        old(app).active_ok(),
    ensures
        old(app).active_node_id is None ==> *final(app) == *old(app),
        old(app).active_node_id matches Some(a) ==> {
            &&& final(app).clipboard matches Some(c) && c@ == subtree_text(old(app).tree_view(), a, true, 0)
            &&& final(app).message matches Some(m) && m@ == "Children yanked"@
            &&& *final(app) == (AppState { clipboard: final(app).clipboard, message: final(app).message, ..*old(app) })
        },
{
    if let Some(active_id) = app.active_node_id {
        let text = map_to_list(&app.tree, active_id, true, 0);
        app.clipboard = Some(text);
        app.set_message(owned("Children yanked"));
    }
}

// ---------------------------------------------------------------------------
// Copying subtrees from one arena into another
// ---------------------------------------------------------------------------

/// The nodes of a parsed text that a paste adds: the children of a node
/// titled "root" that has children, else the node itself.
pub open spec fn pasted_roots(src: TreeView, root: NodeId) -> Seq<NodeId> {
    if src[root].0.0 == top_title() && src[root].2.len() > 0 {
        src[root].2
    } else {
        seq![root]
    }
}

/// `new` keeps every node of `old`; of those, only the children of `p` may
/// differ.
pub open spec fn grown_at(old: TreeView, new: TreeView, p: NodeId) -> bool {
    &&& old.dom().subset_of(new.dom())
    &&& forall|x: NodeId| #![trigger new[x]] old.contains_key(x) && x != p ==> new[x] == old[x]
    &&& new[p].0 == old[p].0
    &&& new[p].1 == old[p].1
}

/// The nodes `cs` are distinct nodes of `new` that `old` did not have, and
/// each carries a copy of the subtree of the matching node of `srcs` in
/// `src`: the same outline.
pub open spec fn copies_of(src: TreeView, srcs: Seq<NodeId>, old: TreeView, new: TreeView, cs: Seq<NodeId>) -> bool {
    &&& cs.len() == srcs.len()
    &&& cs.no_duplicates()
    &&& forall|j: int| #![trigger cs[j]] 0 <= j < cs.len() ==> !old.contains_key(cs[j]) && new.contains_key(cs[j])
    &&& forall|j: int, d: nat|
        0 <= j < cs.len() ==> #[trigger] outline(new, cs[j], d, false) == outline(src, srcs[j], d, false)
}

/// `t2` holds the nodes of `t1` that `r` ranks at most `bound`, unchanged.
pub open spec fn agree_below(t1: TreeView, t2: TreeView, r: Map<NodeId, nat>, bound: int) -> bool {
    forall|x: NodeId| #![trigger t1.contains_key(x)] t1.contains_key(x) && r[x] <= bound ==> t2.contains_key(x) && t2[x] == t1[x]
}

/// The outline of `id` depends only on the nodes ranked no higher than `id`.
proof fn lemma_outline_frame(t1: TreeView, t2: TreeView, r: Map<NodeId, nat>, id: NodeId, d: nat, vis: bool)
    requires
        tree_wf(t1),
        tree_wf(t2),
        ranked(t1, r),
        t1.contains_key(id),
        agree_below(t1, t2, r, r[id] as int),
    ensures
        outline(t2, id, d, vis) == outline(t1, id, d, vis),
    decreases r[id], t1[id].2.len() + 1,
{
    assert(t2[id] == t1[id]);
    lemma_children_frame(t1, t2, r, id, d + 1, vis, t1[id].2.len() as int);
}

proof fn lemma_children_frame(t1: TreeView, t2: TreeView, r: Map<NodeId, nat>, p: NodeId, d: nat, vis: bool, k: int)
    requires
        tree_wf(t1),
        tree_wf(t2),
        ranked(t1, r),
        t1.contains_key(p),
        0 <= k <= t1[p].2.len(),
        agree_below(t1, t2, r, r[p] as int),
    ensures
        children_outline(t2, p, d, vis, k) == children_outline(t1, p, d, vis, k),
    decreases r[p], k,
{
    if k > 0 {
        lemma_children_frame(t1, t2, r, p, d, vis, k - 1);
        let c = t1[p].2[k - 1];
        assert(t1.contains_key(c));
        assert(r[c] < r[p]);
        lemma_rank_exists(t1);
        lemma_rank_exists(t2);
        assert(t2[p] == t1[p]);
        assert(tree_rank(t1)[c] < tree_rank(t1)[p]);
        assert(t2[p].2[k - 1] == c);
        assert(tree_rank(t2)[c] < tree_rank(t2)[p]);
        assert(agree_below(t1, t2, r, r[c] as int));
        lemma_outline_frame(t1, t2, r, c, d, vis);
    }
}

/// Children with the same outlines, in the same order, give the same
/// outline of the children.
proof fn lemma_children_same(t1: TreeView, p1: NodeId, t2: TreeView, p2: NodeId, d: nat, k: int)
    requires
        tree_wf(t1),
        tree_wf(t2),
        t1.contains_key(p1),
        t2.contains_key(p2),
        0 <= k <= t1[p1].2.len(),
        k <= t2[p2].2.len(),
        forall|j: int|
            0 <= j < k ==> outline(t1, #[trigger] t1[p1].2[j], d, false) == outline(t2, t2[p2].2[j], d, false),
    ensures
        children_outline(t1, p1, d, false, k) == children_outline(t2, p2, d, false, k),
    decreases k,
{
    if k > 0 {
        lemma_children_same(t1, p1, t2, p2, d, k - 1);
        lemma_rank_exists(t1);
        lemma_rank_exists(t2);
        let c1 = t1[p1].2[k - 1];
        let c2 = t2[p2].2[k - 1];
        assert(tree_rank(t1)[c1] < tree_rank(t1)[p1]);
        assert(tree_rank(t2)[c2] < tree_rank(t2)[p2]);
    }
}

/// The copies `cs` (children of `p` in `tb`) keep their outlines when only
/// `p`'s entry changes and nodes are added.
proof fn lemma_copies_kept(
    src: TreeView,
    srcs: Seq<NodeId>,
    t0: TreeView,
    tb: TreeView,
    tc: TreeView,
    p: NodeId,
    cs: Seq<NodeId>,
)
    requires
        tree_wf(tb),
        tree_wf(tc),
        tb.contains_key(p),
        grown_at(tb, tc, p),
        copies_of(src, srcs, t0, tb, cs),
        forall|j: int| 0 <= j < cs.len() ==> tb[p].2.contains(#[trigger] cs[j]),
    ensures
        copies_of(src, srcs, t0, tc, cs),
{
    lemma_rank_exists(tb);
    let r = tree_rank(tb);
    assert forall|j: int, d: nat| 0 <= j < cs.len() implies #[trigger] outline(tc, cs[j], d, false) == outline(
        src,
        srcs[j],
        d,
        false,
    ) by {
        let m = choose|m: int| 0 <= m < tb[p].2.len() && tb[p].2[m] == cs[j];
        assert(tb[p].2[m] == cs[j]);
        assert(r[cs[j]] < r[p]);
        assert(outline(tb, cs[j], d, false) == outline(src, srcs[j], d, false));
        assert(agree_below(tb, tc, r, r[cs[j]] as int));
        lemma_outline_frame(tb, tc, r, cs[j], d, false);
    }
}

/// Copies the subtree at `source_id` of `source` into `target`, as the last
/// child of `parent`; returns the copy's root.
fn copy_subtree(target: &mut Arena<Node>, source: &Arena<Node>, source_id: NodeId, parent: NodeId) -> (new_id: NodeId)
    requires
        arena_ok(*old(target)),
        tree_wf(arena_nodes(*source)),
        arena_nodes(*source).contains_key(source_id),
        arena_nodes(*old(target)).contains_key(parent),
    ensures
        arena_ok(*final(target)),
        grown_at(arena_nodes(*old(target)), arena_nodes(*final(target)), parent),
        arena_nodes(*final(target))[parent].2 == arena_nodes(*old(target))[parent].2.push(new_id),
        copies_of(
            arena_nodes(*source),
            seq![source_id],
            arena_nodes(*old(target)),
            arena_nodes(*final(target)),
            seq![new_id],
        ),
    decreases tree_rank(arena_nodes(*source))[source_id],
{
    let ghost s = arena_nodes(*source);
    let ghost t0 = arena_nodes(*target);
    proof {
        lemma_rank_exists(s);
    }
    let data = arena_get_data(source, source_id).unwrap().duplicate();
    let new_id = arena_new_node(target, data);
    let ghost ta = arena_nodes(*target);
    proof {
        lemma_new_node_wf(t0, new_id, s[source_id].0);
        lemma_append_wf(ta, parent, new_id);
    }
    node_append(target, parent, new_id);
    let ghost t1 = arena_nodes(*target);
    let children = node_children(source, source_id);
    let ghost mut cids: Seq<NodeId> = Seq::empty();
    let mut i: usize = 0;
    while i < children.len()
        invariant
            s == arena_nodes(*source),
            tree_wf(s),
            ranked(s, tree_rank(s)),
            s.contains_key(source_id),
            children@ == s[source_id].2,
            0 <= i <= children@.len(),
            arena_ok(*target),
            !t0.contains_key(new_id),
            t1.contains_key(new_id),
            t1[new_id] == (s[source_id].0, Some(parent), Seq::<NodeId>::empty()),
            grown_at(t0, t1, parent),
            t1[parent].2 == t0[parent].2.push(new_id),
            grown_at(t1, arena_nodes(*target), new_id),
            arena_nodes(*target)[new_id].2 == cids,
            copies_of(s, children@.take(i as int), t1, arena_nodes(*target), cids),
        decreases children@.len() - i,
    {
        let c = children[i];
        let ghost tb = arena_nodes(*target);
        proof {
            assert(s[source_id].2[i as int] == c);
            assert(tree_rank(s)[c] < tree_rank(s)[source_id]);
        }
        let cid = copy_subtree(target, source, c, new_id);
        proof {
            let tc = arena_nodes(*target);
            assert forall|j: int| 0 <= j < cids.len() implies tb[new_id].2.contains(#[trigger] cids[j]) by {
                assert(tb[new_id].2[j] == cids[j]);
            }
            lemma_copies_kept(s, children@.take(i as int), t1, tb, tc, new_id, cids);
            assert(seq![cid][0] == cid);
            assert(outline(tc, seq![cid][0], 0, false) == outline(s, seq![c][0], 0, false));
            let ncids = cids.push(cid);
            assert(children@.take(i + 1) =~= children@.take(i as int).push(c));
            assert forall|j: int, d: nat| 0 <= j < ncids.len() implies #[trigger] outline(tc, ncids[j], d, false)
                == outline(s, children@.take(i + 1)[j], d, false) by {
                if j < cids.len() {
                    assert(ncids[j] == cids[j]);
                    assert(outline(tc, cids[j], d, false) == outline(s, children@.take(i as int)[j], d, false));
                } else {
                    assert(ncids[j] == seq![cid][0]);
                    assert(outline(tc, seq![cid][0], d, false) == outline(s, seq![c][0], d, false));
                }
            }
            assert forall|j: int| #![trigger ncids[j]] 0 <= j < ncids.len() implies !t1.contains_key(ncids[j])
                && tc.contains_key(ncids[j]) by {
                if j < cids.len() {
                    assert(ncids[j] == cids[j]);
                } else {
                    assert(seq![cid][0] == cid);
                }
            }
            assert(ncids.no_duplicates()) by {
                assert forall|a: int, b: int| 0 <= a < b < ncids.len() implies ncids[a] != ncids[b] by {
                    if b == cids.len() {
                        assert(tb.contains_key(cids[a]));
                        assert(!tb.contains_key(cid));
                    }
                }
            }
            cids = ncids;
        }
        i = i + 1;
    }
    proof {
        let tf = arena_nodes(*target);
        assert(children@.take(children@.len() as int) =~= children@);
        assert(tf[new_id] == (s[source_id].0, Some(parent), cids));
        assert forall|d: nat| #[trigger] outline(tf, new_id, d, false) == outline(s, source_id, d, false) by {
            lemma_children_same(tf, new_id, s, source_id, d + 1, cids.len() as int);
        }
        assert forall|j: int, d: nat| 0 <= j < 1 implies #[trigger] outline(tf, seq![new_id][j], d, false)
            == outline(s, seq![source_id][j], d, false) by {
            assert(seq![new_id][j] == new_id);
            assert(seq![source_id][j] == source_id);
            assert(outline(tf, new_id, d, false) == outline(s, source_id, d, false));
        }
        assert forall|j: int| #![trigger seq![new_id][j]] 0 <= j < 1 implies !t0.contains_key(seq![new_id][j])
            && tf.contains_key(seq![new_id][j]) by {
            assert(seq![new_id][j] == new_id);
        }
    }
    new_id
}

/// The ids of [`pasted_roots`].
fn pasted_root_ids(source: &Arena<Node>, root: NodeId) -> (ids: Vec<NodeId>)
    requires
        tree_wf(arena_nodes(*source)),
        arena_nodes(*source).contains_key(root),
    ensures
        ids@ == pasted_roots(arena_nodes(*source), root),
        forall|j: int| 0 <= j < ids@.len() ==> arena_nodes(*source).contains_key(#[trigger] ids@[j]),
{
    let ghost s = arena_nodes(*source);
    let node = arena_get_data(source, root).unwrap();
    let children = node_children(source, root);
    proof {
        reveal_strlit("root");
        assert("root"@ =~= top_title());
        assert forall|j: int| 0 <= j < children@.len() implies s.contains_key(#[trigger] children@[j]) by {
            assert(s[root].2[j] == children@[j]);
        }
    }
    if str_eq(node.title.as_str(), "root") && children.len() > 0 {
        children
    } else {
        let ids = vec![root];
        assert(ids@ =~= seq![root]);
        ids
    }
}

/// Copies `roots` of `source` one after the other as the last children of
/// `parent`; returns the copies.
fn copy_all(target: &mut Arena<Node>, source: &Arena<Node>, roots: &Vec<NodeId>, parent: NodeId) -> (cs: Vec<NodeId>)
    requires
        arena_ok(*old(target)),
        tree_wf(arena_nodes(*source)),
        forall|j: int| 0 <= j < roots@.len() ==> arena_nodes(*source).contains_key(#[trigger] roots@[j]),
        arena_nodes(*old(target)).contains_key(parent),
    ensures
        arena_ok(*final(target)),
        grown_at(arena_nodes(*old(target)), arena_nodes(*final(target)), parent),
        arena_nodes(*final(target))[parent].2 == arena_nodes(*old(target))[parent].2 + cs@,
        copies_of(arena_nodes(*source), roots@, arena_nodes(*old(target)), arena_nodes(*final(target)), cs@),
{
    let ghost s = arena_nodes(*source);
    let ghost t0 = arena_nodes(*target);
    let mut cs: Vec<NodeId> = Vec::new();
    let mut i: usize = 0;
    while i < roots.len()
        invariant
            s == arena_nodes(*source),
            tree_wf(s),
            forall|j: int| 0 <= j < roots@.len() ==> s.contains_key(#[trigger] roots@[j]),
            0 <= i <= roots@.len(),
            arena_ok(*target),
            t0.contains_key(parent),
            grown_at(t0, arena_nodes(*target), parent),
            arena_nodes(*target)[parent].2 == t0[parent].2 + cs@,
            copies_of(s, roots@.take(i as int), t0, arena_nodes(*target), cs@),
        decreases roots@.len() - i,
    {
        let ghost tb = arena_nodes(*target);
        let ghost old_cs = cs@;
        let cid = copy_subtree(target, source, roots[i], parent);
        proof {
            let tc = arena_nodes(*target);
            assert forall|j: int| 0 <= j < old_cs.len() implies tb[parent].2.contains(#[trigger] old_cs[j]) by {
                assert(tb[parent].2[t0[parent].2.len() + j] == old_cs[j]);
            }
            lemma_copies_kept(s, roots@.take(i as int), t0, tb, tc, parent, old_cs);
            assert(seq![cid][0] == cid);
            assert(seq![roots@[i as int]][0] == roots@[i as int]);
        }
        cs.push(cid);
        proof {
            let tc = arena_nodes(*target);
            let ncs = cs@;
            assert(ncs == old_cs.push(cid));
            assert(roots@.take(i + 1) =~= roots@.take(i as int).push(roots@[i as int]));
            assert forall|j: int, d: nat| 0 <= j < ncs.len() implies #[trigger] outline(tc, ncs[j], d, false)
                == outline(s, roots@.take(i + 1)[j], d, false) by {
                if j < old_cs.len() {
                    assert(ncs[j] == old_cs[j]);
                    assert(outline(tc, old_cs[j], d, false) == outline(s, roots@.take(i as int)[j], d, false));
                } else {
                    assert(ncs[j] == seq![cid][0]);
                    assert(outline(tc, seq![cid][0], d, false) == outline(s, seq![roots@[i as int]][0], d, false));
                }
            }
            assert forall|j: int| #![trigger ncs[j]] 0 <= j < ncs.len() implies !t0.contains_key(ncs[j])
                && tc.contains_key(ncs[j]) by {
                if j < old_cs.len() {
                    assert(ncs[j] == old_cs[j]);
                } else {
                    assert(seq![cid][0] == cid);
                }
            }
            assert(ncs.no_duplicates()) by {
                assert forall|a: int, b: int| 0 <= a < b < ncs.len() implies ncs[a] != ncs[b] by {
                    if b == old_cs.len() {
                        assert(tb.contains_key(old_cs[a]));
                        assert(!tb.contains_key(cid));
                    }
                }
            }
            assert(tc[parent].2 =~= t0[parent].2 + ncs);
        }
        i = i + 1;
    }
    proof {
        assert(roots@.take(roots@.len() as int) =~= roots@);
    }
    cs
}

/// Copies the pasted nodes of `source_tree` (see [`pasted_roots`]) with
/// their subtrees into `target_tree`, as the last children of `parent_id`,
/// in order. No other node of the target changes.
pub fn add_subtree_to_parent(
    target_tree: &mut Arena<Node>,
    source_tree: &Arena<Node>,
    source_root: NodeId,
    parent_id: NodeId,
)
    requires
        arena_ok(*old(target_tree)),
        tree_wf(arena_nodes(*source_tree)),
        arena_nodes(*source_tree).contains_key(source_root),
        arena_nodes(*old(target_tree)).contains_key(parent_id),
    ensures
        arena_ok(*final(target_tree)),
        grown_at(arena_nodes(*old(target_tree)), arena_nodes(*final(target_tree)), parent_id),
        exists|cs: Seq<NodeId>|
            arena_nodes(*final(target_tree))[parent_id].2 == arena_nodes(*old(target_tree))[parent_id].2 + cs
                && #[trigger] copies_of(
                arena_nodes(*source_tree),
                pasted_roots(arena_nodes(*source_tree), source_root),
                arena_nodes(*old(target_tree)),
                arena_nodes(*final(target_tree)),
                cs,
            ),
{
    let roots = pasted_root_ids(source_tree, source_root);
    let cs = copy_all(target_tree, source_tree, &roots, parent_id);
}

/// Moving the first node of `d` right after `s`, the last node of `a`, in
/// the list `a + b + d`.
proof fn lemma_move_after(a: Seq<NodeId>, b: Seq<NodeId>, d: Seq<NodeId>, s: NodeId)
    requires
        (a + b + d).no_duplicates(),
        a.len() > 0,
        a.last() == s,
        d.len() > 0,
    ensures
        ({
            let l = a + b + d;
            let l1 = l.remove(l.index_of(d[0]));
            l1.insert(l1.index_of(s) + 1, d[0])
        }) == a + seq![d[0]] + b + d.drop_first(),
{
    let l = a + b + d;
    let n = d[0];
    let m: int = (a.len() + b.len()) as int;
    assert(l[m] == n);
    crate::tree::lemma_index_of(l, n);
    assert(l.index_of(n) == m);
    let l1 = l.remove(m);
    assert(l1 =~= a + b + d.drop_first());
    assert(l1.no_duplicates()) by {
        assert forall|i: int, j: int| 0 <= i < j < l1.len() implies l1[i] != l1[j] by {
            let i0 = if i < m { i } else { i + 1 };
            let j0 = if j < m { j } else { j + 1 };
            assert(l1[i] == l[i0]);
            assert(l1[j] == l[j0]);
        }
    }
    assert(l1[a.len() - 1] == s);
    crate::tree::lemma_index_of(l1, s);
    assert(l1.index_of(s) == a.len() - 1);
    assert(l1.insert(a.len() as int, n) =~= a + seq![n] + b + d.drop_first());
}

/// Copies the pasted nodes of `source_tree` (see [`pasted_roots`]) with
/// their subtrees into `target_tree` as children of `parent_id`, each moved
/// in turn to the place right after `after_node` (a child of `parent_id`):
/// the copies stand right after `after_node`, the last one first. No other
/// node of the target changes.
pub fn add_subtree_as_sibling(
    target_tree: &mut Arena<Node>,
    source_tree: &Arena<Node>,
    source_root: NodeId,
    after_node: NodeId,
    parent_id: NodeId,
)
    requires
        arena_ok(*old(target_tree)),
        tree_wf(arena_nodes(*source_tree)),
        arena_nodes(*source_tree).contains_key(source_root),
        arena_nodes(*old(target_tree)).contains_key(after_node),
        arena_nodes(*old(target_tree))[after_node].1 == Some(parent_id),
    ensures
        arena_ok(*final(target_tree)),
        grown_at(arena_nodes(*old(target_tree)), arena_nodes(*final(target_tree)), parent_id),
        exists|cs: Seq<NodeId>|
            arena_nodes(*final(target_tree))[parent_id].2 == sibling_list(
                arena_nodes(*old(target_tree))[parent_id].2,
                after_node,
                cs,
            ) && #[trigger] copies_of(
                arena_nodes(*source_tree),
                pasted_roots(arena_nodes(*source_tree), source_root),
                arena_nodes(*old(target_tree)),
                arena_nodes(*final(target_tree)),
                cs,
            ),
{
    let ghost t0 = arena_nodes(*target_tree);
    let ghost src = arena_nodes(*source_tree);
    proof {
        lemma_rank_exists(t0);
        assert(t0[parent_id].2.contains(after_node));
        crate::tree::lemma_index_of(t0[parent_id].2, after_node);
        let m = t0[parent_id].2.index_of(after_node);
        assert(tree_rank(t0)[t0[parent_id].2[m]] < tree_rank(t0)[parent_id]);
    }
    let roots = pasted_root_ids(source_tree, source_root);
    let nodes_to_add = copy_all(target_tree, source_tree, &roots, parent_id);
    let ghost cs = nodes_to_add@;
    let ghost c0 = t0[parent_id].2;
    let ghost k = c0.index_of(after_node);
    let ghost pre = c0.take(k + 1);
    let ghost post = c0.skip(k + 1);
    proof {
        assert(c0 =~= pre + post);
        assert(cs.take(0).reverse() =~= Seq::<NodeId>::empty());
        assert(cs.skip(0) =~= cs);
        assert(arena_nodes(*target_tree)[parent_id].2 =~= pre + cs.take(0).reverse() + post + cs.skip(0));
    }
    let mut i: usize = 0;
    while i < nodes_to_add.len()
        invariant
            t0.contains_key(after_node),
            t0.contains_key(parent_id),
            t0[after_node].1 == Some(parent_id),
            after_node != parent_id,
            c0 == t0[parent_id].2,
            0 <= k < c0.len(),
            c0[k] == after_node,
            pre == c0.take(k + 1),
            post == c0.skip(k + 1),
            cs == nodes_to_add@,
            0 <= i <= cs.len(),
            arena_ok(*target_tree),
            grown_at(t0, arena_nodes(*target_tree), parent_id),
            copies_of(src, pasted_roots(src, source_root), t0, arena_nodes(*target_tree), cs),
            arena_nodes(*target_tree)[parent_id].2 == pre + cs.take(i as int).reverse() + post + cs.skip(i as int),
        decreases cs.len() - i,
    {
        let n = nodes_to_add[i];
        let ghost tb = arena_nodes(*target_tree);
        let ghost lb = tb[parent_id].2;
        proof {
            assert(lb[pre.len() + i + post.len()] == n);
            assert(tb[n].1 == Some(parent_id));
            assert(tb[after_node] == t0[after_node]);
            assert(!t0.contains_key(cs[i as int]));
            assert(pre + (cs.take(i as int).reverse() + post) + cs.skip(i as int) =~= lb);
            assert(lb.no_duplicates());
            assert(pre.last() == after_node);
            lemma_move_after(pre, cs.take(i as int).reverse() + post, cs.skip(i as int), after_node);
            crate::tree::lemma_insert_sibling_wf(tb, after_node, n, true);
        }
        node_insert_after(target_tree, after_node, n);
        proof {
            let tc = arena_nodes(*target_tree);
            assert(cs.skip(i as int)[0] == n);
            assert(tc[parent_id].2 =~= pre + seq![n] + (cs.take(i as int).reverse() + post) + cs.skip(i as int).drop_first());
            assert(cs.take(i + 1).reverse() =~= seq![n] + cs.take(i as int).reverse());
            assert(cs.skip(i + 1) =~= cs.skip(i as int).drop_first());
            assert(tc[parent_id].2 =~= pre + cs.take(i + 1).reverse() + post + cs.skip(i + 1));
            assert(grown_at(tb, tc, parent_id));
            assert forall|j: int| 0 <= j < cs.len() implies tb[parent_id].2.contains(#[trigger] cs[j]) by {
                if j < i {
                    assert(cs.take(i as int).reverse()[i - 1 - j] == cs[j]);
                    assert(lb[pre.len() + (i - 1 - j)] == cs[j]);
                } else {
                    assert(cs.skip(i as int)[j - i] == cs[j]);
                    assert(lb[pre.len() + i + post.len() + (j - i)] == cs[j]);
                }
            }
            lemma_copies_kept(src, pasted_roots(src, source_root), t0, tb, tc, parent_id, cs);
        }
        i = i + 1;
    }
    proof {
        assert(cs.take(cs.len() as int) =~= cs);
        assert(cs.skip(cs.len() as int) =~= Seq::<NodeId>::empty());
        assert(arena_nodes(*target_tree)[parent_id].2 =~= sibling_list(c0, after_node, cs));
    }
}

/// The children `old` after the copies `cs` are placed right after `after`,
/// the last one first.
pub open spec fn sibling_list(old: Seq<NodeId>, after: NodeId, cs: Seq<NodeId>) -> Seq<NodeId> {
    let k = old.index_of(after);
    old.take(k + 1) + cs.reverse() + old.skip(k + 1)
}

// ---------------------------------------------------------------------------
// Pasting
// ---------------------------------------------------------------------------

/// `new` is `old` with copies of the pasted nodes of `text`, read as a map,
/// added after the children of `p`.
pub open spec fn pasted_under(old: TreeView, new: TreeView, p: NodeId, text: Seq<char>) -> bool {
    &&& grown_at(old, new, p)
    &&& exists|src: TreeView, root: NodeId, cs: Seq<NodeId>|
        parsed_as(src, root, text) && new[p].2 == old[p].2 + cs && #[trigger] copies_of(
            src,
            pasted_roots(src, root),
            old,
            new,
            cs,
        )
}

/// `new` is `old` with copies of the pasted nodes of `text`, read as a map,
/// placed right after `after` among the children of `p`, the last one first.
pub open spec fn pasted_after(old: TreeView, new: TreeView, p: NodeId, after: NodeId, text: Seq<char>) -> bool {
    &&& grown_at(old, new, p)
    &&& exists|src: TreeView, root: NodeId, cs: Seq<NodeId>|
        parsed_as(src, root, text) && new[p].2 == sibling_list(old[p].2, after, cs) && #[trigger] copies_of(
            src,
            pasted_roots(src, root),
            old,
            new,
            cs,
        )
}

/// Pastes the clipboard's text as new children of the active node: the text
/// is read as a map (as a file is), and its pasted nodes (see
/// [`pasted_roots`]) with their subtrees are added after the active node's
/// children; the message says "Pasted as children". The tree is recorded in
/// the history first. With an empty clipboard the message says "Clipboard is
/// empty"; without an active node nothing happens.
pub fn paste_as_children(app: &mut AppState)
    requires
        old(app).wf(),
        old(app).active_ok(),
    ensures
        final(app).wf(),
        final(app).active_ok(),
        old(app).clipboard is None ==> says(final(app).message, "Clipboard is empty"@) && *final(app) == (AppState {
            message: final(app).message,
            ..*old(app)
        }),
        old(app).clipboard is Some && old(app).active_node_id is None ==> *final(app) == *old(app),
        old(app).clipboard matches Some(text) ==> (old(app).active_node_id matches Some(a) ==> {
            &&& history_pushed(*old(app), *final(app))
            &&& says(final(app).message, "Pasted as children"@)
            &&& *final(app) == (AppState {
                tree: final(app).tree,
                history: final(app).history,
                history_index: final(app).history_index,
                message: final(app).message,
                ..*old(app)
            })
            &&& pasted_under(old(app).tree_view(), final(app).tree_view(), a, text@)
        }),
{
    let clip = match &app.clipboard {
        Some(t) => Some(t.clone()),
        None => None,
    };
    match clip {
        None => {
            app.set_message(owned("Clipboard is empty"));
        },
        Some(clipboard_text) => {
            if let Some(active_id) = app.active_node_id {
                app.push_history();
                let ghost t0 = app.tree_view();
                let (parsed_tree, parsed_root) = parse_hmm_content(clipboard_text.as_str());
                add_subtree_to_parent(&mut app.tree, &parsed_tree, parsed_root, active_id);
                proof {
                    let src = arena_nodes(parsed_tree);
                    let cs = choose|cs: Seq<NodeId>|
                        app.tree_view()[active_id].2 == t0[active_id].2 + cs
                            && #[trigger] copies_of(src, pasted_roots(src, parsed_root), t0, app.tree_view(), cs);
                    assert(parsed_as(src, parsed_root, clipboard_text@));
                    assert(pasted_under(t0, app.tree_view(), active_id, clipboard_text@));
                }
                app.set_message(owned("Pasted as children"));
            }
        },
    }
}

/// Pastes the clipboard's text as new siblings of the active node: the text
/// is read as a map (as a file is), and its pasted nodes (see
/// [`pasted_roots`]) with their subtrees are copied under the active node's
/// parent, each moved in turn to the place right after the active node (so
/// the last one comes first); the message says "Pasted as siblings". The tree
/// is recorded in the history first. An active node without a parent gets
/// nothing pasted, and the message says "Cannot paste siblings at root
/// level". With an empty clipboard the message says "Clipboard is empty";
/// without an active node nothing happens.
pub fn paste_as_siblings(app: &mut AppState)
    requires
        old(app).wf(),
        old(app).active_ok(),
    ensures
        final(app).wf(),
        final(app).active_ok(),
        old(app).clipboard is None ==> says(final(app).message, "Clipboard is empty"@) && *final(app) == (AppState {
            message: final(app).message,
            ..*old(app)
        }),
        old(app).clipboard is Some && old(app).active_node_id is None ==> *final(app) == *old(app),
        old(app).clipboard matches Some(text) ==> (old(app).active_node_id matches Some(a) ==> {
            &&& history_pushed(*old(app), *final(app))
            &&& *final(app) == (AppState {
                tree: final(app).tree,
                history: final(app).history,
                history_index: final(app).history_index,
                message: final(app).message,
                ..*old(app)
            })
            &&& old(app).tree_view()[a].1 is None ==> says(final(app).message, "Cannot paste siblings at root level"@)
                && final(app).tree == old(app).tree
            &&& old(app).tree_view()[a].1 matches Some(p) ==> {
                &&& says(final(app).message, "Pasted as siblings"@)
                &&& pasted_after(old(app).tree_view(), final(app).tree_view(), p, a, text@)
            }
        }),
{
    let clip = match &app.clipboard {
        Some(t) => Some(t.clone()),
        None => None,
    };
    match clip {
        None => {
            app.set_message(owned("Clipboard is empty"));
        },
        Some(clipboard_text) => {
            if let Some(active_id) = app.active_node_id {
                app.push_history();
                let ghost t0 = app.tree_view();
                if let Some(parent_id) = node_parent(&app.tree, active_id) {
                    let (parsed_tree, parsed_root) = parse_hmm_content(clipboard_text.as_str());
                    add_subtree_as_sibling(&mut app.tree, &parsed_tree, parsed_root, active_id, parent_id);
                    proof {
                        let src = arena_nodes(parsed_tree);
                        let cs = choose|cs: Seq<NodeId>|
                            app.tree_view()[parent_id].2 == sibling_list(t0[parent_id].2, active_id, cs)
                                && #[trigger] copies_of(src, pasted_roots(src, parsed_root), t0, app.tree_view(), cs);
                        assert(parsed_as(src, parsed_root, clipboard_text@));
                        assert(pasted_after(t0, app.tree_view(), parent_id, active_id, clipboard_text@));
                    }
                    app.set_message(owned("Pasted as siblings"));
                } else {
                    app.set_message(owned("Cannot paste siblings at root level"));
                }
            }
        },
    }
}

} // verus!
