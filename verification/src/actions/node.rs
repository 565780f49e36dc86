//! Adding, deleting and moving nodes.
use crate::actions::editing::start_editing;
use crate::app::{history_pushed, same_frame, AppMode, AppState};
use crate::model::Node;
use crate::outline::{map_to_list, subtree_text};
use crate::text::owned;
use crate::tree::{after_insert_after, after_insert_before, after_remove, arena_new_node, arena_ok, arena_set_data, children_of, lemma_index_of, lemma_insert_sibling_wf, lemma_new_node_wf, lemma_remove_wf, lemma_set_data_wf, node_children, node_id_eq, node_insert_after, node_insert_before, node_parent, node_remove, parent_of, TreeView};
use indextree::NodeId;
use vstd::prelude::*;

verus! {

/// The title of a new node.
pub open spec fn new_title() -> Seq<char> {
    seq!['N', 'E', 'W']
}

/// The tree with the new node `n` titled "NEW", not yet linked.
pub open spec fn with_new_node(t: TreeView, n: NodeId) -> TreeView {
    t.insert(n, ((new_title(), false, false), None, Seq::empty()))
}

/// Stores a new "NEW" node; returns its id.
fn add_new_node(app: &mut AppState) -> (id: NodeId)
    requires
        arena_ok(old(app).tree),
    ensures
        arena_ok(final(app).tree),
        !old(app).tree_view().contains_key(id),
        final(app).tree_view() == with_new_node(old(app).tree_view(), id),
        *final(app) == (AppState { tree: final(app).tree, ..*old(app) }),
{
    proof {
        reveal_strlit("NEW");
    }
    let title = owned("NEW");
    let ghost t = app.tree_view();
    let id = arena_new_node(&mut app.tree, Node::new(title));
    proof {
        assert(title@ == new_title());
        lemma_new_node_wf(t, id, (new_title(), false, false));
    }
    id
}

/// In editing mode with an empty buffer.
pub open spec fn editing_empty(mode: AppMode) -> bool {
    mode matches AppMode::Editing { buffer, cursor_pos } && buffer@.len() == 0 && cursor_pos == 0
}

/// Adds a "NEW" node right after the active node among its siblings (a
/// parentless active node gets a new unlinked node), makes it the active
/// node and starts editing it with an empty buffer. The tree is recorded in
/// the history first.
pub fn insert_sibling(app: &mut AppState)
    requires
        old(app).wf(),
        old(app).active_ok(),
    ensures
        final(app).wf(),
        old(app).active_node_id is None ==> *final(app) == *old(app),
        old(app).active_node_id matches Some(a) ==> {
            &&& final(app).active_node_id matches Some(n) && !old(app).tree_view().contains_key(n)
                && final(app).tree_view() == if parent_of(old(app).tree_view(), a) is Some {
                after_insert_after(with_new_node(old(app).tree_view(), n), a, n)
            } else {
                with_new_node(old(app).tree_view(), n)
            }
            &&& editing_empty(final(app).mode)
            &&& history_pushed(*old(app), *final(app))
            &&& same_frame(*old(app), *final(app))
            &&& final(app).message == old(app).message
            &&& final(app).clipboard == old(app).clipboard
            &&& final(app).is_dirty == old(app).is_dirty
        },
{
    if let Some(active_id) = app.active_node_id {
        app.push_history();
        let ghost t0 = app.tree_view();
        let new_node = add_new_node(app);
        let ghost t1 = app.tree_view();
        if node_parent(&app.tree, active_id).is_some() {
            proof {
                lemma_insert_sibling_wf(t1, active_id, new_node, true);
            }
            node_insert_after(&mut app.tree, active_id, new_node);
        }
        app.active_node_id = Some(new_node);
        start_editing(app, true);
    }
}

/// Adds a "NEW" node as the last child of the active node, expands the
/// active node, makes the new node active and starts editing it with an
/// empty buffer. The tree is recorded in the history first.
pub fn insert_child(app: &mut AppState)
    requires
        old(app).wf(),
        old(app).active_ok(),
    ensures
        final(app).wf(),
        old(app).active_node_id is None ==> *final(app) == *old(app),
        old(app).active_node_id matches Some(a) ==> {
            &&& final(app).active_node_id matches Some(n) && !old(app).tree_view().contains_key(n)
                && final(app).tree_view() == ({
                let t = crate::tree::after_append(with_new_node(old(app).tree_view(), n), a, n);
                t.insert(a, ((t[a].0.0, false, t[a].0.2), t[a].1, t[a].2))
            })
            &&& editing_empty(final(app).mode)
            &&& history_pushed(*old(app), *final(app))
            &&& same_frame(*old(app), *final(app))
            &&& final(app).message == old(app).message
            &&& final(app).clipboard == old(app).clipboard
            &&& final(app).is_dirty == old(app).is_dirty
        },
{
    if let Some(active_id) = app.active_node_id {
        app.push_history();
        let new_node = add_new_node(app);
        let ghost t1 = app.tree_view();
        proof {
            crate::tree::lemma_append_wf(t1, active_id, new_node);
        }
        crate::tree::node_append(&mut app.tree, active_id, new_node);
        let ghost t2 = app.tree_view();
        let node = crate::tree::arena_get_data(&app.tree, active_id).unwrap();
        let expanded = Node { title: node.title.clone(), is_collapsed: false, is_hidden: node.is_hidden };
        proof {
            lemma_set_data_wf(t2, active_id, expanded@);
        }
        arena_set_data(&mut app.tree, active_id, expanded);
        app.active_node_id = Some(new_node);
        start_editing(app, true);
    }
}

/// The node that becomes active when `a` (whose parent is `p`) is deleted:
/// its previous sibling, else its next sibling, else its parent.
pub open spec fn next_active_after_delete(t: TreeView, a: NodeId, p: NodeId) -> NodeId {
    let cs = t[p].2;
    let i = cs.index_of(a);
    if i > 0 {
        cs[i - 1]
    } else if cs.len() > 1 {
        cs[1]
    } else {
        p
    }
}

/// The position of `id` in `v` (which holds it).
fn position_of(v: &Vec<NodeId>, id: NodeId) -> (i: usize)
    requires
        v@.contains(id),
        v@.no_duplicates(),
    ensures
        i == v@.index_of(id),
        v@[i as int] == id,
{
    proof {
        lemma_index_of(v@, id);
    }
    let mut i: usize = 0;
    while i < v.len()
        invariant
            v@.contains(id),
            v@.no_duplicates(),
            0 <= i <= v@.len(),
            forall|k: int| 0 <= k < i ==> v@[k] != id,
        decreases v@.len() - i,
    {
        if node_id_eq(v[i], id) {
            return i;
        }
        i = i + 1;
    }
    assert(false);
    0
}

/// Deletes the active node, which must not be the root: the tree is
/// recorded in the history, the node's subtree text goes to the clipboard,
/// the previous sibling (else the next sibling, else the parent) becomes
/// active, and the node is removed, its children taking its place. Deleting
/// the root only sets the message "Cannot delete root node".
pub fn delete_node(app: &mut AppState)
    requires
        old(app).wf(),
        old(app).active_ok(),
        old(app).active_node_id is Some ==> old(app).root_id is Some,
    ensures
        final(app).wf(),
        old(app).active_node_id is None ==> *final(app) == *old(app),
        old(app).active_node_id matches Some(a) ==> if Some(a) == old(app).root_id {
            &&& final(app).message matches Some(m) && m@ == "Cannot delete root node"@
            &&& *final(app) == (AppState { message: final(app).message, ..*old(app) })
        } else {
            &&& final(app).tree_view() == after_remove(old(app).tree_view(), a)
            &&& final(app).clipboard matches Some(c) && c@ == subtree_text(old(app).tree_view(), a, false, 0)
            &&& final(app).active_node_id == match parent_of(old(app).tree_view(), a) {
                Some(p) => Some(next_active_after_delete(old(app).tree_view(), a, p)),
                None => Some(a),
            }
            &&& history_pushed(*old(app), *final(app))
            &&& same_frame(*old(app), *final(app))
            &&& final(app).mode == old(app).mode
            &&& final(app).message == old(app).message
            &&& final(app).is_dirty == old(app).is_dirty
        },
{
    if let Some(active_id) = app.active_node_id {
        if node_id_eq(active_id, app.root_id.unwrap()) {
            app.set_message(owned("Cannot delete root node"));
            return;
        }
        app.push_history();
        let ghost t = app.tree_view();
        proof {
            crate::tree::lemma_rank_exists(t);
        }
        let subtree_text = map_to_list(&app.tree, active_id, false, 0);
        app.clipboard = Some(subtree_text);
        if let Some(parent_id) = node_parent(&app.tree, active_id) {
            let siblings = node_children(&app.tree, parent_id);
            proof {
                assert(t[parent_id].2.contains(active_id));
            }
            let idx = position_of(&siblings, active_id);
            if idx > 0 {
                app.active_node_id = Some(siblings[idx - 1]);
            } else if siblings.len() > 1 {
                app.active_node_id = Some(siblings[1]);
            } else {
                app.active_node_id = Some(parent_id);
            }
        }
        proof {
            lemma_remove_wf(t, active_id);
        }
        node_remove(&mut app.tree, active_id);
    }
}

/// The tree after removing the first `k` nodes of `cs`, one after the other.
pub open spec fn after_remove_all(t: TreeView, cs: Seq<NodeId>, k: int) -> TreeView
    decreases k,
{
    if k <= 0 {
        t
    } else {
        after_remove(after_remove_all(t, cs, k - 1), cs[k - 1])
    }
}

/// Removes the children of the active node one after the other (each one's
/// children take its place), after recording the tree in the history.
pub fn delete_children(app: &mut AppState)
    requires
        old(app).wf(),
        old(app).active_ok(),
    ensures
        final(app).wf(),
        old(app).active_node_id is None ==> *final(app) == *old(app),
        old(app).active_node_id matches Some(a) ==> {
            let cs = children_of(old(app).tree_view(), a);
            &&& final(app).tree_view() == after_remove_all(old(app).tree_view(), cs, cs.len() as int)
            &&& history_pushed(*old(app), *final(app))
            &&& same_frame(*old(app), *final(app))
            &&& final(app).active_node_id == old(app).active_node_id
            &&& final(app).mode == old(app).mode
            &&& final(app).message == old(app).message
            &&& final(app).clipboard == old(app).clipboard
            &&& final(app).is_dirty == old(app).is_dirty
        },
{
    if let Some(active_id) = app.active_node_id {
        app.push_history();
        let ghost t0 = app.tree_view();
        let ghost app0 = *app;
        let children = node_children(&app.tree, active_id);
        let mut i: usize = 0;
        while i < children.len()
            invariant
                app.wf(),
                0 <= i <= children@.len(),
                children@ == t0[active_id].2,
                crate::tree::tree_wf(t0),
                t0.contains_key(active_id),
                app.tree_view() == after_remove_all(t0, children@, i as int),
                forall|j: int|
                    i <= j < children@.len() ==> app.tree_view().contains_key(#[trigger] children@[j])
                        && app.tree_view()[children@[j]].1 == Some(active_id),
                app.tree_view().contains_key(active_id),
                app.active_node_id == Some(active_id),
                *app == (AppState { tree: app.tree, ..app0 }),
            decreases children@.len() - i,
        {
            let c = children[i];
            let ghost t = app.tree_view();
            proof {
                lemma_remove_wf(t, c);
                assert(children@[i as int] == c);
                assert forall|j: int|
                    i + 1 <= j < children@.len() implies after_remove(t, c).contains_key(
                    #[trigger] children@[j],
                ) && after_remove(t, c)[children@[j]].1 == Some(active_id) by {
                    let y = children@[j];
                    assert(t0[active_id].2.no_duplicates());
                    assert(y != c);
                    assert(t[y].1 == Some(active_id));
                    assert(active_id != c) by {
                        assert(t[c].1 == Some(active_id));
                        crate::tree::lemma_rank_exists(t);
                        let k = choose|k: int| 0 <= k < t[active_id].2.len() && t[active_id].2[k] == c;
                        assert(crate::tree::tree_rank(t)[t[active_id].2[k]] < crate::tree::tree_rank(
                            t,
                        )[active_id]);
                    }
                    assert(!t[c].2.contains(y)) by {
                        if t[c].2.contains(y) {
                            let k = choose|k: int| 0 <= k < t[c].2.len() && t[c].2[k] == y;
                            assert(t[t[c].2[k]].1 == Some(c));
                        }
                    }
                }
                assert(after_remove(t, c).contains_key(active_id)) by {
                    assert(t[c].1 == Some(active_id));
                    crate::tree::lemma_rank_exists(t);
                    let k = choose|k: int| 0 <= k < t[active_id].2.len() && t[active_id].2[k] == c;
                    assert(crate::tree::tree_rank(t)[t[active_id].2[k]] < crate::tree::tree_rank(t)[active_id]);
                }
            }
            node_remove(&mut app.tree, c);
            i = i + 1;
        }
    }
}

/// The sibling right before `a` among its parent's children, if any.
pub open spec fn previous_sibling(t: TreeView, a: NodeId) -> Option<NodeId> {
    match t[a].1 {
        Some(p) => {
            let i = t[p].2.index_of(a);
            if i > 0 {
                Some(t[p].2[i - 1])
            } else {
                None
            }
        },
        None => None,
    }
}

/// The sibling right after `a` among its parent's children, if any.
pub open spec fn next_sibling(t: TreeView, a: NodeId) -> Option<NodeId> {
    match t[a].1 {
        Some(p) => {
            let i = t[p].2.index_of(a);
            if i + 1 < t[p].2.len() {
                Some(t[p].2[i + 1])
            } else {
                None
            }
        },
        None => None,
    }
}

/// The siblings of `a` right before and after it.
fn sibling_neighbors(app: &AppState, a: NodeId) -> (r: (Option<NodeId>, Option<NodeId>))
    requires
        app.wf(),
        app.tree_view().contains_key(a),
    ensures
        r.0 == previous_sibling(app.tree_view(), a),
        r.1 == next_sibling(app.tree_view(), a),
        r.0 matches Some(s) ==> crate::tree::may_become_sibling(app.tree_view(), s, a),
        r.1 matches Some(s) ==> crate::tree::may_become_sibling(app.tree_view(), s, a),
{
    let ghost t = app.tree_view();
    if let Some(parent_id) = node_parent(&app.tree, a) {
        let siblings = node_children(&app.tree, parent_id);
        proof {
            assert(t[parent_id].2.contains(a));
            assert(t[parent_id].2.no_duplicates());
        }
        let idx = position_of(&siblings, a);
        let prev = if idx > 0 {
            proof {
                assert(siblings@[idx - 1] != a);
                assert(t[siblings@[idx - 1]].1 == Some(parent_id));
            }
            Some(siblings[idx - 1])
        } else {
            None
        };
        let next = if idx + 1 < siblings.len() {
            proof {
                assert(siblings@[idx + 1] != a);
                assert(t[siblings@[idx + 1]].1 == Some(parent_id));
            }
            Some(siblings[idx + 1])
        } else {
            None
        };
        (prev, next)
    } else {
        (None, None)
    }
}

/// Moves the active node one place up among its siblings (recording the tree
/// in the history first); nothing happens for a first child.
pub fn move_node_up(app: &mut AppState)
    requires
        old(app).wf(),
        old(app).active_ok(),
    ensures
        final(app).wf(),
        match old(app).active_node_id {
            Some(a) => match previous_sibling(old(app).tree_view(), a) {
                Some(s) => {
                    &&& final(app).tree_view() == after_insert_before(old(app).tree_view(), s, a)
                    &&& history_pushed(*old(app), *final(app))
                    &&& *final(app) == (AppState { tree: final(app).tree, history: final(app).history,
                        history_index: final(app).history_index, ..*old(app) })
                },
                None => *final(app) == *old(app),
            },
            None => *final(app) == *old(app),
        },
{
    if let Some(active_id) = app.active_node_id {
        let (prev, _) = sibling_neighbors(app, active_id);
        if let Some(prev_sibling) = prev {
            app.push_history();
            proof {
                lemma_insert_sibling_wf(app.tree_view(), prev_sibling, active_id, false);
            }
            node_insert_before(&mut app.tree, prev_sibling, active_id);
        }
    }
}

/// Moves the active node one place down among its siblings (recording the
/// tree in the history first); nothing happens for a last child.
pub fn move_node_down(app: &mut AppState)
    requires
        old(app).wf(),
        old(app).active_ok(),
    ensures
        final(app).wf(),
        match old(app).active_node_id {
            Some(a) => match next_sibling(old(app).tree_view(), a) {
                Some(s) => {
                    &&& final(app).tree_view() == after_insert_after(old(app).tree_view(), s, a)
                    &&& history_pushed(*old(app), *final(app))
                    &&& *final(app) == (AppState { tree: final(app).tree, history: final(app).history,
                        history_index: final(app).history_index, ..*old(app) })
                },
                None => *final(app) == *old(app),
            },
            None => *final(app) == *old(app),
        },
{
    if let Some(active_id) = app.active_node_id {
        let (_, next) = sibling_neighbors(app, active_id);
        if let Some(next_sibling) = next {
            app.push_history();
            proof {
                lemma_insert_sibling_wf(app.tree_view(), next_sibling, active_id, true);
            }
            node_insert_after(&mut app.tree, next_sibling, active_id);
        }
    }
}

} // verus!
