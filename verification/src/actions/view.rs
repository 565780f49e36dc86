//! Collapsing and expanding nodes, and the view toggles.
use crate::app::AppState;
use crate::model::Node;
use crate::outline::descending_chain;
use crate::text::owned;
use crate::tree::{arena_get_data, arena_node_ids, arena_nodes, arena_ok, arena_set_data, arena_slots, lemma_rank_exists, lemma_set_data_wf, node_children, node_parent, tree_rank, tree_wf, TreeView};
use indextree::{Arena, NodeId};
use vstd::prelude::*;

verus! {

pub proof fn lemma_take_one_more<A>(s: Seq<A>, i: int)
    requires
        0 <= i < s.len(),
    ensures
        forall|x: A| #[trigger] s.take(i + 1).contains(x) == (s.take(i).contains(x) || x == s[i]),
{
    let a = s.take(i);
    let b = s.take(i + 1);
    assert(b =~= a.push(s[i]));
    assert forall|x: A| #[trigger] b.contains(x) == (a.contains(x) || x == s[i]) by {
        if b.contains(x) {
            let k = choose|k: int| 0 <= k < b.len() && #[trigger] b[k] == x;
            if k < i {
                assert(a[k] == x);
            }
        }
        if a.contains(x) {
            let k = choose|k: int| 0 <= k < a.len() && #[trigger] a[k] == x;
            assert(b[k] == x);
        }
        if x == s[i] {
            assert(b[i] == x);
        }
    }
}

/// The tree with the collapsed flag of `id` set to `b`.
pub open spec fn with_collapsed(t: TreeView, id: NodeId, b: bool) -> TreeView {
    t.insert(id, ((t[id].0.0, b, t[id].0.2), t[id].1, t[id].2))
}

/// The tree with the collapsed flag of every node set by `f`.
pub open spec fn with_collapse_flags(t: TreeView, f: spec_fn(NodeId) -> bool) -> TreeView {
    Map::new(|x: NodeId| t.contains_key(x), |x: NodeId| ((t[x].0.0, f(x), t[x].0.2), t[x].1, t[x].2))
}

/// The arena has no removed slots.
pub open spec fn no_freed_slots(a: Arena<Node>) -> bool {
    arena_slots(a) == arena_nodes(a).dom().len()
}

/// Sets the collapsed flag of the node `id` (in use) to `b`.
pub fn set_collapsed(tree: &mut Arena<Node>, id: NodeId, b: bool)
    requires
        arena_ok(*old(tree)),
        arena_nodes(*old(tree)).contains_key(id),
    ensures
        arena_ok(*final(tree)),
        arena_nodes(*final(tree)) == with_collapsed(arena_nodes(*old(tree)), id, b),
        arena_slots(*final(tree)) == arena_slots(*old(tree)),
{
    let node = arena_get_data(tree, id).unwrap();
    let updated = Node { title: node.title.clone(), is_collapsed: b, is_hidden: node.is_hidden };
    proof {
        lemma_set_data_wf(arena_nodes(*tree), id, updated@);
    }
    arena_set_data(tree, id, updated);
}

/// Flips the collapsed flag of the active node, when it is in the tree.
pub fn toggle_collapse(app: &mut AppState)
    requires
        old(app).wf(),
    ensures
        final(app).wf(),
        final(app).tree_view() == match old(app).active_node_id {
            Some(a) => if old(app).tree_view().contains_key(a) {
                with_collapsed(old(app).tree_view(), a, !old(app).tree_view()[a].0.1)
            } else {
                old(app).tree_view()
            },
            None => old(app).tree_view(),
        },
        *final(app) == (AppState { tree: final(app).tree, ..*old(app) }),
{
    if let Some(active_id) = app.active_node_id {
        if let Some(node) = arena_get_data(&app.tree, active_id) {
            let b = !node.is_collapsed;
            set_collapsed(&mut app.tree, active_id, b);
        }
    }
}

/// Sets the collapsed flag of every node to `b`.
fn set_all_collapsed(tree: &mut Arena<Node>, b: bool)
    requires
        arena_ok(*old(tree)),
    ensures
        arena_ok(*final(tree)),
        arena_nodes(*final(tree)) == with_collapse_flags(arena_nodes(*old(tree)), |x: NodeId| b),
        arena_slots(*final(tree)) == arena_slots(*old(tree)),
{
    let ghost t0 = arena_nodes(*tree);
    let ids = arena_node_ids(tree);
    let mut i: usize = 0;
    while i < ids.len()
        invariant
            arena_ok(*tree),
            arena_slots(*tree) == arena_slots(*old(tree)),
            ids@.no_duplicates(),
            ids@.to_set() == t0.dom(),
            0 <= i <= ids@.len(),
            arena_nodes(*tree) == with_collapse_flags(
                t0,
                |x: NodeId| if ids@.take(i as int).contains(x) { b } else { t0[x].0.1 },
            ),
        decreases ids@.len() - i,
    {
        let id = ids[i];
        proof {
            assert(ids@.to_set().contains(id));
        }
        set_collapsed(tree, id, b);
        proof {
            lemma_take_one_more(ids@, i as int);
            assert(arena_nodes(*tree) =~= with_collapse_flags(
                t0,
                |x: NodeId| if ids@.take(i + 1).contains(x) { b } else { t0[x].0.1 },
            ));
        }
        i = i + 1;
    }
    proof {
        assert forall|x: NodeId| t0.contains_key(x) implies ids@.take(ids@.len() as int).contains(x) by {
            assert(ids@.to_set().contains(x));
            assert(ids@.take(ids@.len() as int) =~= ids@);
        }
        assert(arena_nodes(*tree) =~= with_collapse_flags(t0, |x: NodeId| b));
    }
}

/// Collapses every node.
pub fn collapse_all(app: &mut AppState)
    requires
        old(app).wf(),
    ensures
        final(app).wf(),
        final(app).tree_view() == with_collapse_flags(old(app).tree_view(), |x: NodeId| true),
        *final(app) == (AppState { tree: final(app).tree, ..*old(app) }),
{
    set_all_collapsed(&mut app.tree, true);
}

/// Expands every node.
pub fn expand_all(app: &mut AppState)
    requires
        old(app).wf(),
    ensures
        final(app).wf(),
        final(app).tree_view() == with_collapse_flags(old(app).tree_view(), |x: NodeId| false),
        *final(app) == (AppState { tree: final(app).tree, ..*old(app) }),
{
    set_all_collapsed(&mut app.tree, false);
}

/// Collapses each child of the active node.
pub fn collapse_children(app: &mut AppState)
    requires
        old(app).wf(),
        old(app).active_ok(),
    ensures
        final(app).wf(),
        final(app).tree_view() == match old(app).active_node_id {
            Some(a) => with_collapse_flags(
                old(app).tree_view(),
                |x: NodeId| if old(app).tree_view()[a].2.contains(x) { true } else { old(app).tree_view()[x].0.1 },
            ),
            None => old(app).tree_view(),
        },
        *final(app) == (AppState { tree: final(app).tree, ..*old(app) }),
{
    let ghost t0 = app.tree_view();
    if let Some(active_id) = app.active_node_id {
        let children = node_children(&app.tree, active_id);
        let mut i: usize = 0;
        let ghost app0 = *app;
        while i < children.len()
            invariant
                app.wf(),
                t0 == app0.tree_view(),
                children@ == t0[active_id].2,
                forall|k: int| 0 <= k < children@.len() ==> t0.contains_key(#[trigger] children@[k]),
                0 <= i <= children@.len(),
                app.tree_view() == with_collapse_flags(
                    t0,
                    |x: NodeId| if children@.take(i as int).contains(x) { true } else { t0[x].0.1 },
                ),
                *app == (AppState { tree: app.tree, ..app0 }),
            decreases children@.len() - i,
        {
            let c = children[i];
            set_collapsed(&mut app.tree, c, true);
            proof {
                lemma_take_one_more(children@, i as int);
                assert(app.tree_view() =~= with_collapse_flags(
                    t0,
                    |x: NodeId| if children@.take(i + 1).contains(x) { true } else { t0[x].0.1 },
                ));
            }
            i = i + 1;
        }
        proof {
            assert(children@.take(children@.len() as int) =~= children@);
            assert(app.tree_view() =~= with_collapse_flags(
                t0,
                |x: NodeId| if t0[active_id].2.contains(x) { true } else { t0[x].0.1 },
            ));
        }
    }
}

/// `s` is the chain from `a` up to its root: `a` first, each next entry the
/// parent of the one before, the last one without a parent.
pub open spec fn is_ancestor_chain(t: TreeView, a: NodeId, s: Seq<NodeId>) -> bool {
    &&& s.len() >= 1
    &&& s[0] == a
    &&& forall|i: int| 0 <= i < s.len() ==> t.contains_key(#[trigger] s[i])
    &&& forall|i: int| 0 <= i < s.len() - 1 ==> t[#[trigger] s[i]].1 == Some(s[i + 1])
    &&& t[s.last()].1 is None
}

/// Collapses every node, then expands the active node and its ancestors.
pub fn collapse_other_branches(app: &mut AppState)
    requires
        old(app).wf(),
        old(app).active_ok(),
    ensures
        final(app).wf(),
        match old(app).active_node_id {
            Some(a) => exists|s: Seq<NodeId>|
                is_ancestor_chain(old(app).tree_view(), a, s) && final(app).tree_view()
                    == with_collapse_flags(old(app).tree_view(), |x: NodeId| !s.contains(x)),
            None => final(app).tree_view() == old(app).tree_view(),
        },
        *final(app) == (AppState { tree: final(app).tree, ..*old(app) }),
{
    if let Some(active_id) = app.active_node_id {
        let ghost t0 = app.tree_view();
        set_all_collapsed(&mut app.tree, true);
        let ghost t1 = app.tree_view();
        let ghost app0 = *app;
        let mut cur = active_id;
        let ghost mut chain: Seq<NodeId> = seq![active_id];
        proof {
            lemma_rank_exists(t1);
        }
        loop
            invariant_except_break
                app.tree_view() == with_collapse_flags(
                    t0,
                    |x: NodeId| !chain.drop_last().contains(x),
                ),
            invariant
                app.wf(),
                t1 == with_collapse_flags(t0, |x: NodeId| true),
                tree_wf(t1),
                chain.len() >= 1,
                chain[0] == active_id,
                chain.last() == cur,
                t0.contains_key(cur),
                forall|i: int| 0 <= i < chain.len() ==> t0.contains_key(#[trigger] chain[i]),
                forall|i: int| 0 <= i < chain.len() - 1 ==> t0[#[trigger] chain[i]].1 == Some(chain[i + 1]),
                forall|i: int, j: int|
                    0 <= i < j < chain.len() ==> tree_rank(t1)[#[trigger] chain[i]] < tree_rank(t1)[#[trigger] chain[j]],
                *app == (AppState { tree: app.tree, ..app0 }),
            ensures
                is_ancestor_chain(t0, active_id, chain),
                app.tree_view() == with_collapse_flags(t0, |x: NodeId| !chain.contains(x)),
            decreases t0.dom().len() - chain.len(),
        {
            set_collapsed(&mut app.tree, cur, false);
            let ghost prev_chain = chain;
            let parent = node_parent(&app.tree, cur);
            proof {
                assert(app.tree_view() =~= with_collapse_flags(
                    t0,
                    |x: NodeId| !chain.drop_last().contains(x) && x != cur,
                ));
                assert(chain =~= chain.drop_last().push(cur));
                assert forall|x: NodeId| (!chain.drop_last().contains(x) && x != cur) == !chain.contains(x) by {
                    let d = chain.drop_last();
                    if chain.contains(x) && x != cur {
                        let k = choose|k: int| 0 <= k < chain.len() && #[trigger] chain[k] == x;
                        assert(k < chain.len() - 1);
                        assert(d[k] == x);
                    }
                    if d.contains(x) {
                        let k = choose|k: int| 0 <= k < d.len() && #[trigger] d[k] == x;
                        assert(chain[k] == x);
                    }
                    if x == cur {
                        assert(chain[chain.len() - 1] == cur);
                    }
                }
                assert(app.tree_view() =~= with_collapse_flags(t0, |x: NodeId| !chain.contains(x)));
            }
            match parent {
                None => {
                    proof {
                        assert(is_ancestor_chain(t0, active_id, chain));
                    }
                    break;
                },
                Some(p) => {
                    proof {
                        assert(t1[cur].1 == Some(p));
                        assert(t1[p].2.contains(cur));
                        let k = choose|k: int| 0 <= k < t1[p].2.len() && t1[p].2[k] == cur;
                        assert(tree_rank(t1)[t1[p].2[k]] < tree_rank(t1)[p]);
                        chain = chain.push(p);
                        assert forall|i: int, j: int|
                            0 <= i < j < chain.len() implies tree_rank(t1)[#[trigger] chain[i]] < tree_rank(t1)[#[trigger] chain[j]] by {
                            if j == chain.len() - 1 {
                                if i < chain.len() - 2 {
                                    assert(prev_chain[i] == chain[i]);
                                    assert(tree_rank(t1)[prev_chain[i]] < tree_rank(t1)[prev_chain[prev_chain.len() - 1]]);
                                }
                            } else {
                                assert(prev_chain[i] == chain[i]);
                                assert(prev_chain[j] == chain[j]);
                            }
                        }
                        // the chain runs through distinct nodes of the tree
                        let rev = chain.reverse();
                        assert(descending_chain(t1, rev)) by {
                            assert forall|i: int| 0 <= i < rev.len() implies t1.contains_key(#[trigger] rev[i]) by {
                                assert(rev[i] == chain[chain.len() - 1 - i]);
                            }
                            assert forall|i: int, j: int|
                                0 <= i < j < rev.len() implies tree_rank(t1)[#[trigger] rev[j]] < tree_rank(t1)[#[trigger] rev[i]] by {
                                assert(rev[i] == chain[chain.len() - 1 - i]);
                                assert(rev[j] == chain[chain.len() - 1 - j]);
                            }
                        }
                        crate::outline::lemma_chain_fits(t1, rev);
                        assert(t1.dom() == t0.dom());
                        assert(chain.drop_last() =~= prev_chain);
                    }
                    cur = p;
                },
            }
        }
    }
}

/// Flips the center lock and reports it ("Center lock: ON" or "OFF").
pub fn toggle_center_lock(app: &mut AppState)
    ensures
        final(app).config.center_lock == !old(app).config.center_lock,
        final(app).message matches Some(m) && m@ == (if final(app).config.center_lock {
            "Center lock: ON"@
        } else {
            "Center lock: OFF"@
        }),
        *final(app) == (AppState { config: final(app).config, message: final(app).message, ..*old(app) }),
        final(app).config == (crate::config::AppConfig { center_lock: final(app).config.center_lock, ..old(app).config }),
{
    app.config.center_lock = !app.config.center_lock;
    let msg = if app.config.center_lock {
        owned("Center lock: ON")
    } else {
        owned("Center lock: OFF")
    };
    app.set_message(msg);
}

/// Focus mode is not there yet; says so.
pub fn focus(app: &mut AppState)
    ensures
        final(app).message matches Some(m) && m@ == "Focus mode not yet implemented"@,
        *final(app) == (AppState { message: final(app).message, ..*old(app) }),
{
    app.set_message(owned("Focus mode not yet implemented"));
}

/// Flips the focus lock and reports it ("Focus lock: ON" or "OFF").
pub fn toggle_focus_lock(app: &mut AppState)
    ensures
        final(app).config.focus_lock == !old(app).config.focus_lock,
        final(app).message matches Some(m) && m@ == (if final(app).config.focus_lock {
            "Focus lock: ON"@
        } else {
            "Focus lock: OFF"@
        }),
        *final(app) == (AppState { config: final(app).config, message: final(app).message, ..*old(app) }),
        final(app).config == (crate::config::AppConfig { focus_lock: final(app).config.focus_lock, ..old(app).config }),
{
    app.config.focus_lock = !app.config.focus_lock;
    let msg = if app.config.focus_lock {
        owned("Focus lock: ON")
    } else {
        owned("Focus lock: OFF")
    };
    app.set_message(msg);
}

} // verus!
