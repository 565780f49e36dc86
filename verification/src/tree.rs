//! The mind map's tree: an `indextree` arena of [`Node`]s, seen through an
//! abstract model in which every node in use has its data, its parent and the
//! ordered list of its children.
use crate::model::{Node, NodeView};
use indextree::{Arena, NodeId};
use vstd::prelude::*;

verus! {

#[verifier::external_type_specification]
#[verifier::external_body]
#[verifier::reject_recursive_types(T)]
pub struct ExArena<T>(Arena<T>);

#[verifier::external_type_specification]
#[verifier::external_body]
pub struct ExNodeId(NodeId);

/// The entry of one node: its data, its parent and its children in order.
pub type NodeEntry = (NodeView, Option<NodeId>, Seq<NodeId>);

/// The abstract value of an arena: the entries of the nodes in use, by id.
pub type TreeView = Map<NodeId, NodeEntry>;

/// What an arena holds: for each node id that is in use (not removed), the
/// node's data, its parent and its children in order. (Parentless nodes can
/// be linked as siblings too, when a parentless node with several children
/// is removed; no call here reads that order, and every call that links a
/// node detaches it first.)
pub uninterp spec fn arena_nodes(a: Arena<Node>) -> TreeView;

/// The slots of an arena in storage order: the id of the node in use in each
/// slot, `None` for a removed slot that was not reused yet.
pub uninterp spec fn arena_order(a: Arena<Node>) -> Seq<Option<NodeId>>;

/// The number of slots of an arena: the nodes in use and the removed ones that
/// were not reused yet.
pub open spec fn arena_slots(a: Arena<Node>) -> nat {
    arena_order(a).len()
}

/// The ids held by the slots `o`, in order.
pub open spec fn live_ids(o: Seq<Option<NodeId>>) -> Seq<NodeId>
    decreases o.len(),
{
    if o.len() == 0 {
        Seq::empty()
    } else {
        match o.last() {
            Some(id) => live_ids(o.drop_last()).push(id),
            None => live_ids(o.drop_last()),
        }
    }
}

/// Slots holding the ids `ids`, in order, none of them removed.
pub open spec fn slots_of(ids: Seq<NodeId>) -> Seq<Option<NodeId>> {
    ids.map_values(|x: NodeId| Some(x))
}

/// Every slot of `o` holds a node in use.
pub open spec fn all_in_use(o: Seq<Option<NodeId>>) -> bool {
    forall|k: int| 0 <= k < o.len() ==> (#[trigger] o[k]) is Some
}

pub open spec fn data_of(t: TreeView, id: NodeId) -> NodeView {
    t[id].0
}

pub open spec fn title_of(t: TreeView, id: NodeId) -> Seq<char> {
    t[id].0.0
}

pub open spec fn parent_of(t: TreeView, id: NodeId) -> Option<NodeId> {
    t[id].1
}

pub open spec fn children_of(t: TreeView, id: NodeId) -> Seq<NodeId> {
    t[id].2
}

/// Parent and child links agree, and no node is listed twice as a child.
pub open spec fn links_agree(t: TreeView) -> bool {
    &&& t.dom().finite()
    &&& forall|id: NodeId|
        #![trigger t[id]]
        t.contains_key(id) && t[id].1 is Some ==> {
            &&& t.contains_key(t[id].1->0)
            &&& t[t[id].1->0].2.contains(id)
        }
    &&& forall|id: NodeId, i: int|
        #![trigger t[id].2[i]]
        t.contains_key(id) && 0 <= i < t[id].2.len() ==> {
            &&& t.contains_key(t[id].2[i])
            &&& t[t[id].2[i]].1 == Some(id)
        }
    &&& forall|id: NodeId| #![trigger t[id]] t.contains_key(id) ==> t[id].2.no_duplicates()
}

/// `r` ranks the nodes so that every child ranks below its parent: the
/// parent links hold no cycle.
pub open spec fn ranked(t: TreeView, r: Map<NodeId, nat>) -> bool {
    &&& t.dom().subset_of(r.dom())
    &&& forall|id: NodeId, i: int|
        #![trigger t[id].2[i]]
        t.contains_key(id) && 0 <= i < t[id].2.len() ==> r[t[id].2[i]] < r[id]
}

/// A well-formed forest.
pub open spec fn tree_wf(t: TreeView) -> bool {
    &&& links_agree(t)
    &&& exists|r: Map<NodeId, nat>| ranked(t, r)
}

/// An arena that this library can work on: a well-formed forest whose nodes
/// in use fit in its slots, which fit in a `usize`.
pub open spec fn arena_ok(a: Arena<Node>) -> bool {
    &&& tree_wf(arena_nodes(a))
    &&& arena_nodes(a).dom().len() <= arena_slots(a)
    &&& arena_slots(a) < usize::MAX
}

/// A ranking of a well-formed forest, used as the measure of recursions over it.
pub open spec fn tree_rank(t: TreeView) -> Map<NodeId, nat> {
    choose|r: Map<NodeId, nat>| ranked(t, r)
}

/// A node that is in use, has no parent and no children.
pub open spec fn is_lone(t: TreeView, id: NodeId) -> bool {
    &&& t.contains_key(id)
    &&& t[id].1 is None
    &&& t[id].2.len() == 0
}

/// The tree after appending the lone node `c` as the last child of `p`.
pub open spec fn after_append(t: TreeView, p: NodeId, c: NodeId) -> TreeView {
    t.insert(c, (t[c].0, Some(p), t[c].2)).insert(p, (t[p].0, t[p].1, t[p].2.push(c)))
}

/// The tree after taking `n` out of its parent's children.
pub open spec fn after_detach(t: TreeView, n: NodeId) -> TreeView {
    match t[n].1 {
        Some(q) => t.insert(q, (t[q].0, t[q].1, t[q].2.remove(t[q].2.index_of(n)))).insert(
            n,
            (t[n].0, None, t[n].2),
        ),
        None => t,
    }
}

/// The tree after placing the parentless node `n` at position `j` of the
/// children of `p`.
pub open spec fn after_place(t: TreeView, p: NodeId, j: int, n: NodeId) -> TreeView {
    t.insert(p, (t[p].0, t[p].1, t[p].2.insert(j, n))).insert(n, (t[n].0, Some(p), t[n].2))
}

/// The tree after moving `n` (lone, or a sibling of `s`) right after `s`.
pub open spec fn after_insert_after(t: TreeView, s: NodeId, n: NodeId) -> TreeView {
    let t1 = after_detach(t, n);
    let p = t1[s].1->0;
    after_place(t1, p, t1[p].2.index_of(s) + 1, n)
}

/// The tree after moving `n` (lone, or a sibling of `s`) right before `s`.
pub open spec fn after_insert_before(t: TreeView, s: NodeId, n: NodeId) -> TreeView {
    let t1 = after_detach(t, n);
    let p = t1[s].1->0;
    after_place(t1, p, t1[p].2.index_of(s), n)
}

/// The tree after removing `n`: its children take its place among its
/// parent's children, or, when it has no parent, become parentless.
pub open spec fn after_remove(t: TreeView, n: NodeId) -> TreeView {
    match t[n].1 {
        Some(p) => {
            let cs = t[p].2;
            let k = cs.index_of(n);
            let new_cs = cs.subrange(0, k) + t[n].2 + cs.subrange(k + 1, cs.len() as int);
            Map::new(
                |x: NodeId| t.contains_key(x) && x != n,
                |x: NodeId|
                    if x == p {
                        (t[p].0, t[p].1, new_cs)
                    } else if t[n].2.contains(x) {
                        (t[x].0, Some(p), t[x].2)
                    } else {
                        t[x]
                    },
            )
        },
        None => if t[n].2.len() == 0 {
            t.remove(n)
        } else {
            Map::new(
                |x: NodeId| t.contains_key(x) && x != n,
                |x: NodeId|
                    if t[n].2.contains(x) {
                        (t[x].0, None, t[x].2)
                    } else {
                        t[x]
                    },
            )
        },
    }
}

/// `s` may take `n` as a sibling: `s` has a parent and `n` is either lone or
/// another child of that parent.
pub open spec fn may_become_sibling(t: TreeView, s: NodeId, n: NodeId) -> bool {
    &&& t.contains_key(s)
    &&& t.contains_key(n)
    &&& s != n
    &&& t[s].1 is Some
    &&& (is_lone(t, n) || t[n].1 == t[s].1)
}

// ---------------------------------------------------------------------------
// Trusted items: the calls into `indextree`.
// ---------------------------------------------------------------------------

/// `Arena::new`: an arena with no nodes and no slots.
#[verifier::external_body]
pub(crate) fn arena_new() -> (arena: Arena<Node>)
    ensures
        arena_nodes(arena) == TreeView::empty(),
        arena_order(arena) == Seq::<Option<NodeId>>::empty(),
{
    Arena::new()
}

/// `Arena::clone`: a copy with the same nodes under the same ids.
#[verifier::external_body]
pub(crate) fn arena_clone(arena: &Arena<Node>) -> (copy: Arena<Node>)
    ensures
        arena_nodes(copy) == arena_nodes(*arena),
        arena_order(copy) == arena_order(*arena),
{
    arena.clone()
}

/// `Arena::len`: the number of slots (nodes in use and removed ones).
#[verifier::external_body]
pub(crate) fn arena_len(arena: &Arena<Node>) -> (n: usize)
    ensures
        n == arena_slots(*arena),
{
    arena.len()
}

/// `Arena::new_node`: stores `data` as a new parentless, childless node under
/// an id that was not in use, either in a removed slot that it reuses or in a
/// new last slot. Without removed slots to reuse, the arena grows by one
/// slot. The slot count stays below `usize::MAX`: the slots live in one
/// `Vec`, and each takes far more than one byte.
#[verifier::external_body]
pub(crate) fn arena_new_node(arena: &mut Arena<Node>, data: Node) -> (id: NodeId)
    ensures
        !arena_nodes(*old(arena)).contains_key(id),
        arena_nodes(*final(arena)) == arena_nodes(*old(arena)).insert(id, (data@, None, Seq::empty())),
        arena_slots(*old(arena)) <= arena_slots(*final(arena)) <= arena_slots(*old(arena)) + 1,
        arena_slots(*old(arena)) == arena_nodes(*old(arena)).len() ==> arena_slots(*final(arena))
            == arena_slots(*old(arena)) + 1,
        arena_slots(*final(arena)) < usize::MAX,
        arena_order(*final(arena)) == arena_order(*old(arena)).push(Some(id)) || exists|k: int|
            0 <= k < arena_order(*old(arena)).len() && arena_order(*old(arena))[k] is None
                && arena_order(*final(arena)) == arena_order(*old(arena)).update(k, Some(id)),
        all_in_use(arena_order(*old(arena))) ==> arena_order(*final(arena)) == arena_order(*old(arena)).push(
            Some(id),
        ),
{
    arena.new_node(data)
}

/// `Arena::get_data`: the data of a node in use, `None` for an id not in use.
#[verifier::external_body]
pub(crate) fn arena_get_data<'a>(arena: &'a Arena<Node>, id: NodeId) -> (data: Option<&'a Node>)
    ensures
        data is Some <==> arena_nodes(*arena).contains_key(id),
        data is Some ==> data->0@ == data_of(arena_nodes(*arena), id),
{
    arena.get_data(id)
}

/// `Arena::get_data_mut`, then an assignment: replaces the data of a node in
/// use and leaves its links alone.
#[verifier::external_body]
pub(crate) fn arena_set_data(arena: &mut Arena<Node>, id: NodeId, data: Node)
    requires
        arena_nodes(*old(arena)).contains_key(id),
    ensures
        arena_nodes(*final(arena)) == arena_nodes(*old(arena)).insert(
            id,
            (data@, parent_of(arena_nodes(*old(arena)), id), children_of(arena_nodes(*old(arena)), id)),
        ),
        arena_order(*final(arena)) == arena_order(*old(arena)),
{
    if let Some(slot) = arena.get_data_mut(id) {
        *slot = data;
    }
}

/// `NodeId::parent`: the parent of a node in use.
#[verifier::external_body]
pub(crate) fn node_parent(arena: &Arena<Node>, id: NodeId) -> (parent: Option<NodeId>)
    requires
        arena_nodes(*arena).contains_key(id),
    ensures
        parent == parent_of(arena_nodes(*arena), id),
{
    id.parent(arena)
}

/// `NodeId::children`, collected: the children of a node in use, in order.
#[verifier::external_body]
pub(crate) fn node_children(arena: &Arena<Node>, id: NodeId) -> (children: Vec<NodeId>)
    requires
        arena_nodes(*arena).contains_key(id),
    ensures
        children@ == children_of(arena_nodes(*arena), id),
{
    id.children(arena).collect()
}

/// `Arena::iter_node_ids`, collected: every id in use, each once, in
/// storage order.
#[verifier::external_body]
pub(crate) fn arena_node_ids(arena: &Arena<Node>) -> (ids: Vec<NodeId>)
    ensures
        ids@ == live_ids(arena_order(*arena)),
        ids@.no_duplicates(),
        ids@.to_set() == arena_nodes(*arena).dom(),
{
    arena.iter_node_ids().collect()
}

/// `NodeId` equality, which compares the slot index and the slot's stamp.
#[verifier::external_body]
pub(crate) fn node_id_eq(x: NodeId, y: NodeId) -> (same: bool)
    ensures
        same == (x == y),
{
    x == y
}

/// `NodeId::append` of a node that has no parent and no children: it becomes
/// the last child of `parent`.
#[verifier::external_body]
pub(crate) fn node_append(arena: &mut Arena<Node>, parent: NodeId, child: NodeId)
    requires
        arena_nodes(*old(arena)).contains_key(parent),
        is_lone(arena_nodes(*old(arena)), child),
        parent != child,
    ensures
        arena_nodes(*final(arena)) == after_append(arena_nodes(*old(arena)), parent, child),
        arena_order(*final(arena)) == arena_order(*old(arena)),
{
    parent.append(child, arena)
}

/// `NodeId::insert_after`: `node` (lone, or a sibling of `sibling`) moves to
/// the place right after `sibling` among its parent's children.
#[verifier::external_body]
pub(crate) fn node_insert_after(arena: &mut Arena<Node>, sibling: NodeId, node: NodeId)
    requires
        may_become_sibling(arena_nodes(*old(arena)), sibling, node),
    ensures
        arena_nodes(*final(arena)) == after_insert_after(arena_nodes(*old(arena)), sibling, node),
        arena_order(*final(arena)) == arena_order(*old(arena)),
{
    sibling.insert_after(node, arena)
}

/// `NodeId::insert_before`: `node` (lone, or a sibling of `sibling`) moves to
/// the place right before `sibling` among its parent's children.
#[verifier::external_body]
pub(crate) fn node_insert_before(arena: &mut Arena<Node>, sibling: NodeId, node: NodeId)
    requires
        may_become_sibling(arena_nodes(*old(arena)), sibling, node),
    ensures
        arena_nodes(*final(arena)) == after_insert_before(arena_nodes(*old(arena)), sibling, node),
        arena_order(*final(arena)) == arena_order(*old(arena)),
{
    sibling.insert_before(node, arena)
}

/// `NodeId::remove` of a node in use: the node goes, and its children take
/// its place among its parent's children, or become parentless when it had
/// no parent. Its slot stays, as a removed one.
#[verifier::external_body]
pub(crate) fn node_remove(arena: &mut Arena<Node>, id: NodeId)
    requires
        arena_nodes(*old(arena)).contains_key(id),
    ensures
        arena_nodes(*final(arena)) == after_remove(arena_nodes(*old(arena)), id),
        arena_order(*final(arena)) == arena_order(*old(arena)).map_values(
            |o: Option<NodeId>|
                if o == Some(id) {
                    None
                } else {
                    o
                },
        ),
{
    id.remove(arena)
}

// ---------------------------------------------------------------------------
// Every change that the trusted items describe keeps the forest well formed.
// ---------------------------------------------------------------------------

pub proof fn lemma_empty_wf()
    ensures
        tree_wf(TreeView::empty()),
{
    assert(ranked(TreeView::empty(), Map::empty()));
}

pub proof fn lemma_rank_exists(t: TreeView)
    requires
        tree_wf(t),
    ensures
        ranked(t, tree_rank(t)),
{
}

/// A map that ranks `t` after doubling, with room for a new leaf at rank 0.
pub open spec fn doubled_rank(r: Map<NodeId, nat>) -> Map<NodeId, nat> {
    Map::new(|x: NodeId| r.contains_key(x), |x: NodeId| (2 * r[x] + 1) as nat)
}

pub proof fn lemma_new_node_wf(t: TreeView, id: NodeId, v: NodeView)
    requires
        tree_wf(t),
        !t.contains_key(id),
    ensures
        tree_wf(t.insert(id, (v, None, Seq::empty()))),
        is_lone(t.insert(id, (v, None, Seq::empty())), id),
{
    let t2 = t.insert(id, (v, None, Seq::<NodeId>::empty()));
    let r = tree_rank(t);
    let r2 = r.insert(id, 0);
    assert forall|x: NodeId| #![trigger t2[x]] t2.contains_key(x) && t2[x].1 is Some implies {
        &&& t2.contains_key(t2[x].1->0)
        &&& t2[t2[x].1->0].2.contains(x)
    } by {
        assert(x != id);
        assert(t[x] == t2[x]);
        let q = t[x].1->0;
        assert(t.contains_key(q));
        assert(q != id);
    }
    assert forall|x: NodeId, i: int|
        #![trigger t2[x].2[i]]
        t2.contains_key(x) && 0 <= i < t2[x].2.len() implies {
        &&& t2.contains_key(t2[x].2[i])
        &&& t2[t2[x].2[i]].1 == Some(x)
    } by {
        assert(x != id);
        assert(t[x] == t2[x]);
        let c = t[x].2[i];
        assert(t.contains_key(c));
    }
    assert(ranked(t2, r2)) by {
        lemma_rank_exists(t);
        assert(t2.dom().subset_of(r2.dom()));
        assert forall|x: NodeId, i: int|
            #![trigger t2[x].2[i]]
            t2.contains_key(x) && 0 <= i < t2[x].2.len() implies r2[t2[x].2[i]] < r2[x] by {
            assert(x != id);
            assert(t[x] == t2[x]);
            let c = t[x].2[i];
            assert(t.contains_key(c));
            assert(c != id);
        }
    }
}

pub proof fn lemma_append_wf(t: TreeView, p: NodeId, c: NodeId)
    requires
        tree_wf(t),
        t.contains_key(p),
        is_lone(t, c),
        p != c,
    ensures
        tree_wf(after_append(t, p, c)),
        after_append(t, p, c).dom() == t.dom(),
{
    let t2 = after_append(t, p, c);
    let r = tree_rank(t);
    let r2 = doubled_rank(r).insert(c, 0);
    assert(t2.dom() =~= t.dom());
    // c is nobody's child before the change
    assert forall|x: NodeId, i: int| t.contains_key(x) && 0 <= i < t[x].2.len() implies t[x].2[i]
        != c by {
        assert(t[t[x].2[i]].1 == Some(x));
    }
    assert forall|x: NodeId| #![trigger t2[x]] t2.contains_key(x) && t2[x].1 is Some implies {
        &&& t2.contains_key(t2[x].1->0)
        &&& t2[t2[x].1->0].2.contains(x)
    } by {
        if x == c {
            assert(t2[p].2[t[p].2.len() as int] == c);
        } else {
            let q = t[x].1->0;
            assert(t.contains_key(q));
            let k = choose|k: int| 0 <= k < t[q].2.len() && t[q].2[k] == x;
            if q == p {
                assert(t2[p].2[k] == x);
            } else {
                assert(t2[q] == t[q]);
            }
        }
    }
    assert forall|x: NodeId, i: int|
        #![trigger t2[x].2[i]]
        t2.contains_key(x) && 0 <= i < t2[x].2.len() implies {
        &&& t2.contains_key(t2[x].2[i])
        &&& t2[t2[x].2[i]].1 == Some(x)
    } by {
        if x == p {
            if i < t[p].2.len() {
                assert(t2[p].2[i] == t[p].2[i]);
                let y = t[p].2[i];
                assert(t.contains_key(y));
            }
        } else if x != c {
            let y = t[x].2[i];
            assert(t.contains_key(y));
        }
    }
    assert forall|x: NodeId| #![trigger t2[x]] t2.contains_key(x) implies t2[x].2.no_duplicates() by {
        if x == p {
            assert forall|a: int, b: int| 0 <= a < b < t2[p].2.len() implies t2[p].2[a]
                != t2[p].2[b] by {
                if b == t[p].2.len() {
                    assert(t[p].2[a] != c);
                }
            }
        }
    }
    assert(ranked(t2, r2)) by {
        lemma_rank_exists(t);
        assert(t2.dom().subset_of(r2.dom()));
        assert forall|x: NodeId, i: int|
            #![trigger t2[x].2[i]]
            t2.contains_key(x) && 0 <= i < t2[x].2.len() implies r2[t2[x].2[i]] < r2[x] by {
            if x == p && i == t[p].2.len() {
            } else {
                assert(x != c);
                let y = t[x].2[i];
                assert(t2[x].2[i] == y);
                assert(t.contains_key(y));
                assert(r[y] < r[x]);
            }
        }
    }
}

pub proof fn lemma_index_of<A>(s: Seq<A>, x: A)
    requires
        s.contains(x),
    ensures
        0 <= s.index_of(x) < s.len(),
        s[s.index_of(x)] == x,
        s.no_duplicates() ==> forall|k: int| 0 <= k < s.len() && s[k] == x ==> k == s.index_of(x),
{
}

/// Taking a node out of its parent's children keeps the forest well formed,
/// under the same ranking.
pub proof fn lemma_detach_wf(t: TreeView, n: NodeId, r: Map<NodeId, nat>)
    requires
        links_agree(t),
        ranked(t, r),
        t.contains_key(n),
    ensures
        links_agree(after_detach(t, n)),
        ranked(after_detach(t, n), r),
        after_detach(t, n).dom() == t.dom(),
        after_detach(t, n)[n] == (t[n].0, None::<NodeId>, t[n].2),
        forall|x: NodeId| #![trigger after_detach(t, n)[x]] t.contains_key(x) && x != n && Some(x) != t[n].1
            ==> after_detach(t, n)[x] == t[x],
        t[n].1 is Some ==> {
            let q = t[n].1->0;
            &&& after_detach(t, n)[q] == (t[q].0, t[q].1, t[q].2.remove(t[q].2.index_of(n)))
            &&& q != n
        },
{
    if let Some(q) = t[n].1 {
        let t2 = after_detach(t, n);
        let cs = t[q].2;
        lemma_index_of(cs, n);
        let k = cs.index_of(n);
        let cs2 = cs.remove(k);
        assert(q != n) by {
            assert(r[cs[k]] < r[q]);
        }
        assert(t2.dom() =~= t.dom());
        assert forall|x: NodeId| #![trigger t2[x]] t2.contains_key(x) && t2[x].1 is Some implies {
            &&& t2.contains_key(t2[x].1->0)
            &&& t2[t2[x].1->0].2.contains(x)
        } by {
            assert(x != n);
            assert(t2[x].1 == t[x].1);
            let y = t[x].1->0;
            let j = choose|j: int| 0 <= j < t[y].2.len() && t[y].2[j] == x;
            if y == q {
                assert(j != k);
                if j < k {
                    assert(cs2[j] == x);
                } else {
                    assert(cs2[j - 1] == x);
                }
            }
        }
        assert forall|x: NodeId, i: int|
            #![trigger t2[x].2[i]]
            t2.contains_key(x) && 0 <= i < t2[x].2.len() implies {
            &&& t2.contains_key(t2[x].2[i])
            &&& t2[t2[x].2[i]].1 == Some(x)
        } by {
            if x == q {
                let y = if i < k { cs[i] } else { cs[i + 1] };
                assert(cs2[i] == y);
                if i < k {
                    assert(t[q].2[i] == y);
                } else {
                    assert(t[q].2[i + 1] == y);
                }
                assert(y != n);
            } else {
                let y = t[x].2[i];
                assert(t2[x].2[i] == y);
                assert(t[y].1 == Some(x));
                assert(y != n);
            }
        }
        assert forall|x: NodeId| #![trigger t2[x]] t2.contains_key(x) implies t2[x].2.no_duplicates() by {
            if x == q {
                assert(t[q].2.no_duplicates());
                assert forall|a: int, b: int| 0 <= a < b < cs2.len() implies cs2[a] != cs2[b] by {
                    let a1 = if a < k { a } else { a + 1 };
                    let b1 = if b < k { b } else { b + 1 };
                    assert(cs2[a] == cs[a1]);
                    assert(cs2[b] == cs[b1]);
                }
            } else {
                assert(t[x].2.no_duplicates());
            }
        }
        assert forall|x: NodeId, i: int|
            #![trigger t2[x].2[i]]
            t2.contains_key(x) && 0 <= i < t2[x].2.len() implies r[t2[x].2[i]] < r[x] by {
            if x == q {
                if i < k {
                    assert(cs2[i] == cs[i]);
                    assert(t[q].2[i] == cs[i]);
                } else {
                    assert(cs2[i] == cs[i + 1]);
                    assert(t[q].2[i + 1] == cs[i + 1]);
                }
            } else {
                assert(t2[x].2[i] == t[x].2[i]);
            }
        }
    }
}

/// Placing a parentless node `n` among the children of `p` keeps the forest
/// well formed when some ranking puts `n` below `p`.
pub proof fn lemma_place_wf(t: TreeView, p: NodeId, j: int, n: NodeId, r: Map<NodeId, nat>)
    requires
        links_agree(t),
        ranked(t, r),
        t.contains_key(p),
        t.contains_key(n),
        t[n].1 is None,
        r[n] < r[p],
        0 <= j <= t[p].2.len(),
    ensures
        tree_wf(after_place(t, p, j, n)),
        after_place(t, p, j, n).dom() == t.dom(),
{
    let t2 = after_place(t, p, j, n);
    let cs = t[p].2;
    let cs2 = cs.insert(j, n);
    assert(p != n);
    assert(t2.dom() =~= t.dom());
    assert forall|x: NodeId, i: int| t.contains_key(x) && 0 <= i < t[x].2.len() implies t[x].2[i]
        != n by {
        assert(t[t[x].2[i]].1 == Some(x));
    }
    assert forall|x: NodeId| #![trigger t2[x]] t2.contains_key(x) && t2[x].1 is Some implies {
        &&& t2.contains_key(t2[x].1->0)
        &&& t2[t2[x].1->0].2.contains(x)
    } by {
        if x == n {
            assert(cs2[j] == n);
        } else {
            let y = t[x].1->0;
            let m = choose|m: int| 0 <= m < t[y].2.len() && t[y].2[m] == x;
            if y == p {
                if m < j {
                    assert(cs2[m] == x);
                } else {
                    assert(cs2[m + 1] == x);
                }
            } else if y == n {
                assert(t2[n].2 == t[n].2);
                assert(t2[n].2[m] == x);
            } else {
                assert(t2[y] == t[y]);
            }
        }
    }
    assert forall|x: NodeId, i: int|
        #![trigger t2[x].2[i]]
        t2.contains_key(x) && 0 <= i < t2[x].2.len() implies {
        &&& t2.contains_key(t2[x].2[i])
        &&& t2[t2[x].2[i]].1 == Some(x)
    } by {
        if x == p {
            if i < j {
                assert(cs2[i] == cs[i]);
                assert(t[p].2[i] == cs[i]);
            } else if i > j {
                assert(cs2[i] == cs[i - 1]);
                assert(t[p].2[i - 1] == cs[i - 1]);
            }
        } else if x != n {
            assert(t2[x].2[i] == t[x].2[i]);
            assert(t[x].2[i] != n);
        } else {
            assert(t2[n].2[i] == t[n].2[i]);
            assert(t[n].2[i] != n);
        }
    }
    assert forall|x: NodeId| #![trigger t2[x]] t2.contains_key(x) implies t2[x].2.no_duplicates() by {
        if x == p {
            assert(t[p].2.no_duplicates());
            assert forall|a: int, b: int| 0 <= a < b < cs2.len() implies cs2[a] != cs2[b] by {
                if a == j {
                    assert(cs2[b] == cs[b - 1]);
                } else if b == j {
                    assert(cs2[a] == cs[a]);
                } else {
                    let a1 = if a < j { a } else { a - 1 };
                    let b1 = if b < j { b } else { b - 1 };
                    assert(cs2[a] == cs[a1]);
                    assert(cs2[b] == cs[b1]);
                }
            }
        } else {
            assert(t[x].2.no_duplicates());
        }
    }
    assert(ranked(t2, r)) by {
        assert forall|x: NodeId, i: int|
            #![trigger t2[x].2[i]]
            t2.contains_key(x) && 0 <= i < t2[x].2.len() implies r[t2[x].2[i]] < r[x] by {
            if x == p {
                if i < j {
                    assert(cs2[i] == cs[i]);
                    assert(t[p].2[i] == cs[i]);
                } else if i > j {
                    assert(cs2[i] == cs[i - 1]);
                    assert(t[p].2[i - 1] == cs[i - 1]);
                }
            } else {
                assert(t2[x].2[i] == t[x].2[i]);
            }
        }
    }
}

/// Moving a lone node, or a sibling of `s`, next to `s` keeps the forest well
/// formed.
pub proof fn lemma_insert_sibling_wf(t: TreeView, s: NodeId, n: NodeId, after: bool)
    requires
        tree_wf(t),
        may_become_sibling(t, s, n),
    ensures
        tree_wf(
            if after {
                after_insert_after(t, s, n)
            } else {
                after_insert_before(t, s, n)
            },
        ),
        after_insert_after(t, s, n).dom() == t.dom(),
        after_insert_before(t, s, n).dom() == t.dom(),
{
    let r0 = tree_rank(t);
    let p = t[s].1->0;
    let r = if is_lone(t, n) {
        doubled_rank(r0).insert(n, 0)
    } else {
        r0
    };
    if is_lone(t, n) {
        assert(ranked(t, r)) by {
            assert(t.dom().subset_of(r.dom()));
            assert forall|x: NodeId, i: int|
                #![trigger t[x].2[i]]
                t.contains_key(x) && 0 <= i < t[x].2.len() implies r[t[x].2[i]] < r[x] by {
                assert(t[t[x].2[i]].1 == Some(x));
                assert(x != n);
            }
        }
        assert(r[n] < r[p]);
    } else {
        let m = choose|m: int| 0 <= m < t[p].2.len() && t[p].2[m] == n;
        assert(t[p].2[m] == n);
        assert(r[n] < r[p]);
    }
    lemma_detach_wf(t, n, r);
    let t1 = after_detach(t, n);
    assert(t1[s].1 == Some(p)) by {
        if t[n].1 is Some {
            assert(s != p);
        }
    }
    let cs1 = t1[p].2;
    assert(cs1.contains(s)) by {
        assert(links_agree(t1));
        assert(t1[s].1 is Some);
    }
    lemma_index_of(cs1, s);
    lemma_place_wf(t1, p, cs1.index_of(s) + 1, n, r);
    lemma_place_wf(t1, p, cs1.index_of(s), n, r);
}

/// Removing a node that has a parent, or no children, keeps the forest well
/// formed.
pub proof fn lemma_remove_wf(t: TreeView, n: NodeId)
    requires
        tree_wf(t),
        t.contains_key(n),
    ensures
        tree_wf(after_remove(t, n)),
        after_remove(t, n).dom() == t.dom().remove(n),
{
    if t[n].1 is None && t[n].2.len() > 0 {
        lemma_remove_parentless_wf(t, n);
    } else {
        lemma_remove_linked_wf(t, n);
    }
}

/// Removing a parentless node with children leaves its children parentless.
proof fn lemma_remove_parentless_wf(t: TreeView, n: NodeId)
    requires
        tree_wf(t),
        t.contains_key(n),
        t[n].1 is None,
        t[n].2.len() > 0,
    ensures
        tree_wf(after_remove(t, n)),
        after_remove(t, n).dom() == t.dom().remove(n),
{
    let r = tree_rank(t);
    lemma_rank_exists(t);
    let t2 = after_remove(t, n);
    assert(t2.dom() =~= t.dom().remove(n));
    assert forall|x: NodeId| #![trigger t2[x]] t2.contains_key(x) implies t2[x].2 == t[x].2 by {}
    assert forall|x: NodeId| #![trigger t2[x]] t2.contains_key(x) && t2[x].1 is Some implies {
        &&& t2.contains_key(t2[x].1->0)
        &&& t2[t2[x].1->0].2.contains(x)
    } by {
        assert(!t[n].2.contains(x));
        assert(t2[x] == t[x]);
        let y = t[x].1->0;
        assert(t[y].2.contains(x));
        assert(y != n);
        assert(t2.contains_key(y));
    }
    assert forall|x: NodeId, i: int|
        #![trigger t2[x].2[i]]
        t2.contains_key(x) && 0 <= i < t2[x].2.len() implies {
        &&& t2.contains_key(t2[x].2[i])
        &&& t2[t2[x].2[i]].1 == Some(x)
    } by {
        let c = t[x].2[i];
        assert(t2[x].2[i] == c);
        assert(t.contains_key(c) && t[c].1 == Some(x));
        assert(c != n);
        if t[n].2.contains(c) {
            let m = choose|m: int| 0 <= m < t[n].2.len() && t[n].2[m] == c;
            assert(t[t[n].2[m]].1 == Some(n));
        }
        assert(t2[c] == t[c]);
    }
    assert forall|x: NodeId| #![trigger t2[x]] t2.contains_key(x) implies t2[x].2.no_duplicates() by {
        assert(t[x].2.no_duplicates());
    }
    assert(ranked(t2, r)) by {
        assert forall|x: NodeId, i: int|
            #![trigger t2[x].2[i]]
            t2.contains_key(x) && 0 <= i < t2[x].2.len() implies r[t2[x].2[i]] < r[x] by {
            assert(t2[x].2[i] == t[x].2[i]);
        }
    }
}

proof fn lemma_remove_linked_wf(t: TreeView, n: NodeId)
    requires
        tree_wf(t),
        t.contains_key(n),
        t[n].1 is Some || t[n].2.len() == 0,
    ensures
        tree_wf(after_remove(t, n)),
        after_remove(t, n).dom() == t.dom().remove(n),
{
    let r = tree_rank(t);
    let t2 = after_remove(t, n);
    // nobody but n's parent lists n as a child
    assert forall|x: NodeId, i: int| t.contains_key(x) && 0 <= i < t[x].2.len() && t[x].2[i] == n
        implies t[n].1 == Some(x) by {
    }
    match t[n].1 {
        None => {
            assert(t2.dom() =~= t.dom().remove(n));
            assert forall|x: NodeId| #![trigger t2[x]] t2.contains_key(x) && t2[x].1 is Some implies {
                &&& t2.contains_key(t2[x].1->0)
                &&& t2[t2[x].1->0].2.contains(x)
            } by {
                let y = t[x].1->0;
                if y == n {
                    let m = choose|m: int| 0 <= m < t[y].2.len() && t[y].2[m] == x;
                    assert(t[n].2[m] == x);
                }
            }
            assert forall|x: NodeId, i: int|
                #![trigger t2[x].2[i]]
                t2.contains_key(x) && 0 <= i < t2[x].2.len() implies {
                &&& t2.contains_key(t2[x].2[i])
                &&& t2[t2[x].2[i]].1 == Some(x)
            } by {
                assert(t[x].2[i] != n);
            }
            assert forall|x: NodeId| #![trigger t2[x]] t2.contains_key(x) implies t2[x].2.no_duplicates() by {
                assert(t[x].2.no_duplicates());
            }
            assert(ranked(t2, r)) by {
                assert forall|x: NodeId, i: int|
                    #![trigger t2[x].2[i]]
                    t2.contains_key(x) && 0 <= i < t2[x].2.len() implies r[t2[x].2[i]] < r[x] by {
                    assert(t2[x].2[i] == t[x].2[i]);
                }
            }
        },
        Some(p) => {
            let cs = t[p].2;
            lemma_index_of(cs, n);
            let k = cs.index_of(n);
            let gs = t[n].2;
            let new_cs = cs.subrange(0, k) + gs + cs.subrange(k + 1, cs.len() as int);
            assert(p != n) by {
                assert(r[cs[k]] < r[p]);
            }
            assert(t2.dom() =~= t.dom().remove(n));
            assert(t2[p] == (t[p].0, t[p].1, new_cs));
            assert(new_cs.len() == cs.len() - 1 + gs.len());
            // positions in the new list
            assert forall|i: int| 0 <= i < new_cs.len() implies #[trigger] new_cs[i] == (if i < k {
                cs[i]
            } else if i < k + gs.len() {
                gs[i - k]
            } else {
                cs[i - gs.len() + 1]
            }) by {
            }
            assert forall|x: NodeId| gs.contains(x) implies t.contains_key(x) && t[x].1 == Some(n)
                && !cs.contains(x) && x != p by {
                let m = choose|m: int| 0 <= m < gs.len() && gs[m] == x;
                assert(t[n].2[m] == x);
                if cs.contains(x) {
                    let m2 = choose|m2: int| 0 <= m2 < cs.len() && cs[m2] == x;
                    assert(t[p].2[m2] == x);
                }
                assert(r[gs[m]] < r[n]);
                assert(r[cs[k]] < r[p]);
            }
            assert forall|x: NodeId| #![trigger t2[x]] t2.contains_key(x) && t2[x].1 is Some implies {
                &&& t2.contains_key(t2[x].1->0)
                &&& t2[t2[x].1->0].2.contains(x)
            } by {
                if gs.contains(x) {
                    let m = choose|m: int| 0 <= m < gs.len() && gs[m] == x;
                    assert(new_cs[k + m] == x);
                } else if x == p {
                    let y = t[p].1->0;
                    assert(y != n) by {
                        let m = choose|m: int| 0 <= m < t[y].2.len() && t[y].2[m] == p;
                        if y == n {
                            assert(gs[m] == p);
                        }
                    }
                    let m = choose|m: int| 0 <= m < t[y].2.len() && t[y].2[m] == p;
                    if y == p {
                        assert(r[t[p].2[m]] < r[p]);
                    } else {
                        assert(!gs.contains(y)) by {
                            if gs.contains(y) {
                                assert(t[p].2[m] == p);
                                assert(r[t[p].2[m]] < r[p]);
                            }
                        }
                        assert(t2[y] == t[y]);
                    }
                } else {
                    assert(t2[x] == t[x]);
                    let y = t[x].1->0;
                    assert(y != n);
                    let m = choose|m: int| 0 <= m < t[y].2.len() && t[y].2[m] == x;
                    if y == p {
                        assert(m != k);
                        if m < k {
                            assert(new_cs[m] == x);
                        } else {
                            assert(new_cs[m - 1 + gs.len()] == x);
                        }
                    } else if gs.contains(y) {
                        assert(t2[y] == (t[y].0, Some(p), t[y].2));
                    } else {
                        assert(t2[y] == t[y]);
                    }
                }
            }
            assert forall|x: NodeId, i: int|
                #![trigger t2[x].2[i]]
                t2.contains_key(x) && 0 <= i < t2[x].2.len() implies {
                &&& t2.contains_key(t2[x].2[i])
                &&& t2[t2[x].2[i]].1 == Some(x)
            } by {
                if x == p {
                    let y = new_cs[i];
                    if i < k {
                        assert(t[p].2[i] == y);
                        assert(!gs.contains(y));
                        assert(y != p) by { assert(r[t[p].2[i]] < r[p]); }
                    } else if i < k + gs.len() {
                        assert(gs[i - k] == y);
                        assert(t[n].2[i - k] == y);
                    } else {
                        assert(t[p].2[i - gs.len() + 1] == y);
                        assert(!gs.contains(y));
                        assert(y != p) by { assert(r[t[p].2[i - gs.len() + 1]] < r[p]); }
                    }
                } else {
                    let y = t[x].2[i];
                    assert(t2[x].2[i] == y);
                    assert(t[y].1 == Some(x));
                    assert(y != n);
                    assert(!gs.contains(y));
                    if y == p {
                    }
                }
            }
            assert forall|x: NodeId| #![trigger t2[x]] t2.contains_key(x) implies t2[x].2.no_duplicates() by {
                if x == p {
                    assert(cs.no_duplicates());
                    assert(gs.no_duplicates());
                    assert forall|a: int, b: int| 0 <= a < b < new_cs.len() implies new_cs[a]
                        != new_cs[b] by {
                        let ya = new_cs[a];
                        let yb = new_cs[b];
                        if a < k && b < k {
                        } else if a < k && b < k + gs.len() {
                            assert(cs.contains(ya));
                            assert(gs.contains(yb));
                        } else if a < k {
                            assert(cs[a] == ya);
                            assert(cs[b - gs.len() + 1] == yb);
                        } else if a < k + gs.len() && b < k + gs.len() {
                        } else if a < k + gs.len() {
                            assert(gs.contains(ya));
                            assert(cs.contains(yb));
                        } else {
                            assert(cs[a - gs.len() + 1] == ya);
                            assert(cs[b - gs.len() + 1] == yb);
                        }
                    }
                } else {
                    assert(t[x].2.no_duplicates());
                }
            }
            assert(ranked(t2, r)) by {
                assert forall|x: NodeId, i: int|
                    #![trigger t2[x].2[i]]
                    t2.contains_key(x) && 0 <= i < t2[x].2.len() implies r[t2[x].2[i]] < r[x] by {
                    if x == p {
                        if i < k {
                            assert(t[p].2[i] == new_cs[i]);
                        } else if i < k + gs.len() {
                            assert(t[n].2[i - k] == new_cs[i]);
                            assert(r[t[n].2[i - k]] < r[n]);
                            assert(r[t[p].2[k]] < r[p]);
                        } else {
                            assert(t[p].2[i - gs.len() + 1] == new_cs[i]);
                        }
                    } else {
                        assert(t2[x].2[i] == t[x].2[i]);
                    }
                }
            }
        },
    }
}

/// Replacing a node's data keeps the forest well formed.
pub proof fn lemma_set_data_wf(t: TreeView, id: NodeId, v: NodeView)
    requires
        tree_wf(t),
        t.contains_key(id),
    ensures
        tree_wf(t.insert(id, (v, t[id].1, t[id].2))),
        t.insert(id, (v, t[id].1, t[id].2)).dom() == t.dom(),
{
    let t2 = t.insert(id, (v, t[id].1, t[id].2));
    let r = tree_rank(t);
    assert(t2.dom() =~= t.dom());
    assert forall|x: NodeId| #![trigger t2[x]] t2.contains_key(x) && t2[x].1 is Some implies {
        &&& t2.contains_key(t2[x].1->0)
        &&& t2[t2[x].1->0].2.contains(x)
    } by {
        assert(t[x].1 == t2[x].1);
        let y = t[x].1->0;
        assert(t[y].2 == t2[y].2);
    }
    assert forall|x: NodeId, i: int|
        #![trigger t2[x].2[i]]
        t2.contains_key(x) && 0 <= i < t2[x].2.len() implies {
        &&& t2.contains_key(t2[x].2[i])
        &&& t2[t2[x].2[i]].1 == Some(x)
    } by {
        assert(t2[x].2 == t[x].2);
        let y = t[x].2[i];
        assert(t2[y].1 == t[y].1);
    }
    assert forall|x: NodeId| #![trigger t2[x]] t2.contains_key(x) implies t2[x].2.no_duplicates() by {
        assert(t2[x].2 == t[x].2);
    }
    assert(ranked(t2, r)) by {
        assert forall|x: NodeId, i: int|
            #![trigger t2[x].2[i]]
            t2.contains_key(x) && 0 <= i < t2[x].2.len() implies r[t2[x].2[i]] < r[x] by {
            assert(t2[x].2 == t[x].2);
        }
    }
}

} // verus!
