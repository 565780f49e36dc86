//! Moving the active node: along the tree's links, and by where the nodes
//! stand in the layout. (Scrolling the view to the active node belongs to
//! the terminal front end.)
use crate::app::AppState;
use crate::layout::{app_layout, layout_ready, lookup, LayoutEngine, LayoutNode, NodeGeom};
use crate::tree::{arena_ok, node_children, node_parent, parent_of};
use indextree::NodeId;
use vstd::prelude::*;

verus! {

/// Makes the parent of the active node active (the root's parent too, when
/// the root has one); a parentless active node stays.
pub fn go_left(app: &mut AppState)
    requires
        old(app).active_ok(),
    ensures
        *final(app) == (AppState { active_node_id: final(app).active_node_id, ..*old(app) }),
        final(app).active_node_id == match old(app).active_node_id {
            Some(a) => match parent_of(old(app).tree_view(), a) {
                Some(p) => Some(p),
                None => Some(a),
            },
            None => None,
        },
{
    if let Some(active_id) = app.active_node_id {
        if let Some(parent_id) = node_parent(&app.tree, active_id) {
            app.active_node_id = Some(parent_id);
        }
    }
}

/// Makes the root active.
pub fn go_to_root(app: &mut AppState)
    ensures
        *final(app) == (AppState { active_node_id: old(app).root_id, ..*old(app) }),
{
    app.active_node_id = app.root_id;
}

/// The row of a node's text.
pub open spec fn text_row(e: NodeGeom) -> int {
    e.2 + e.6
}

/// Twice the column of a node's centre.
pub open spec fn center_col2(e: NodeGeom) -> int {
    2 * e.1 + e.3
}

/// Twice the row of a node's centre.
pub open spec fn center_row2(e: NodeGeom) -> int {
    2 * text_row(e) + e.5
}

/// Scanning the first `k` of `cs`: the node other than `a` with a place
/// whose text row is the nearest above `cur` (`up`) or below it, the first
/// such in order, with its row.
pub open spec fn best_sibling(g: Seq<NodeGeom>, cs: Seq<NodeId>, a: NodeId, cur: int, up: bool, k: int) -> Option<
    (NodeId, int),
>
    decreases k,
{
    if k <= 0 {
        None
    } else {
        let prev = best_sibling(g, cs, a, cur, up, k - 1);
        let c = cs[k - 1];
        if c != a && lookup(g, c) is Some {
            let r = text_row(lookup(g, c)->0);
            let better = match prev {
                Some(q) => if up {
                    r < cur && r > q.1
                } else {
                    r > cur && r < q.1
                },
                None => if up {
                    r < cur
                } else {
                    r > cur
                },
            };
            if better {
                Some((c, r))
            } else {
                prev
            }
        } else {
            prev
        }
    }
}

/// `e` is another node than `a`, and its centre is above (`up`) or below
/// the centre of `from`.
pub open spec fn vertical_candidate(a: NodeId, from: NodeGeom, up: bool, e: NodeGeom) -> bool {
    &&& e.0 != a
    &&& if up {
        center_row2(e) < center_row2(from)
    } else {
        center_row2(e) > center_row2(from)
    }
}

/// The distance that vertical moves go by, rows weighing fifteen times as
/// much as columns (squared, in half columns and half rows).
pub open spec fn vertical_distance(e: NodeGeom, from: NodeGeom) -> int {
    let dx = center_col2(e) - center_col2(from);
    let dy = center_row2(e) - center_row2(from);
    (15 * dy) * (15 * dy) + dx * dx
}

/// `n` is a candidate nearest to `from`: no candidate is nearer.
pub open spec fn is_nearest(g: Seq<NodeGeom>, a: NodeId, from: NodeGeom, up: bool, n: NodeId) -> bool {
    exists|i: int|
        0 <= i < g.len() && (#[trigger] g[i]).0 == n && vertical_candidate(a, from, up, g[i]) && forall|j: int|
            0 <= j < g.len() && vertical_candidate(a, from, up, #[trigger] g[j]) ==> vertical_distance(g[i], from)
                <= vertical_distance(g[j], from)
}

/// The active node after a move up (`up`) or down from `a` in the layout
/// `g`: the sibling whose text row is the nearest above (below), the first
/// such; without one, a node whose centre is above (below) and nearest by
/// [`vertical_distance`]; without one, `a` stays.
pub open spec fn vertical_move(app: AppState, a: NodeId, up: bool, r: Option<NodeId>) -> bool {
    let t = app.tree_view();
    let g = app_layout(app);
    let sib = match (parent_of(t, a), lookup(g, a)) {
        (Some(p), Some(e)) => best_sibling(g, t[p].2, a, text_row(e), up, t[p].2.len() as int),
        _ => None,
    };
    match sib {
        Some(s) => r == Some(s.0),
        None => match lookup(g, a) {
            None => r == Some(a),
            Some(from) => if exists|i: int| 0 <= i < g.len() && vertical_candidate(a, from, up, #[trigger] g[i]) {
                r matches Some(n) && is_nearest(g, a, from, up, n)
            } else {
                r == Some(a)
            },
        },
    }
}

/// The layout of the map, when it is there and small enough for exact
/// distances.
fn usable_layout(app: &AppState) -> (r: Option<LayoutEngine>)
    requires
        arena_ok(app.tree),
        app.root_id matches Some(root) ==> app.tree_view().contains_key(root),
    ensures
        r matches Some(l) ==> crate::layout::geoms(l.nodes@) == app_layout(*app) && crate::layout::small(
            crate::layout::geoms(l.nodes@),
        ),
        layout_ready(*app) ==> r is Some,
{
    match LayoutEngine::calculate_layout(app) {
        Some(l) => if crate::layout::is_small(&l) {
            Some(l)
        } else {
            None
        },
        None => None,
    }
}

/// Scans the children `cs` for the sibling of `a` nearest above (`up`) or
/// below the row `cur` (see [`best_sibling`]).
fn scan_siblings(l: &LayoutEngine, cs: &Vec<NodeId>, a: NodeId, cur: u128, up: bool) -> (r: Option<(NodeId, u128)>)
    requires
        crate::layout::small(crate::layout::geoms(l.nodes@)),
    ensures
        r matches Some(p) ==> best_sibling(crate::layout::geoms(l.nodes@), cs@, a, cur as int, up, cs@.len() as int)
            == Some((p.0, p.1 as int)),
        r is None ==> best_sibling(crate::layout::geoms(l.nodes@), cs@, a, cur as int, up, cs@.len() as int) is None,
{
    let ghost g = crate::layout::geoms(l.nodes@);
    let mut best: Option<(NodeId, u128)> = None;
    let mut i: usize = 0;
    while i < cs.len()
        invariant
            0 <= i <= cs@.len(),
            g == crate::layout::geoms(l.nodes@),
            crate::layout::small(g),
            best matches Some(p) ==> best_sibling(g, cs@, a, cur as int, up, i as int) == Some((p.0, p.1 as int)),
            best is None ==> best_sibling(g, cs@, a, cur as int, up, i as int) is None,
        decreases cs@.len() - i,
    {
        let c = cs[i];
        if !crate::tree::node_id_eq(c, a) {
            match l.get(c) {
                Some(n) => {
                    proof {
                        crate::layout::lemma_small_member(g, l.nodes@, *n);
                    }
                    let row = n.y + n.yo;
                    let better = if up {
                        row < cur && match best {
                            None => true,
                            Some(p) => row > p.1,
                        }
                    } else {
                        row > cur && match best {
                            None => true,
                            Some(p) => row < p.1,
                        }
                    };
                    if better {
                        best = Some((c, row));
                    }
                },
                None => {},
            }
        }
        i = i + 1;
    }
    best
}

/// Twice the column and the row of a node's centre.
fn centre2(n: &LayoutNode) -> (c: (i128, i128))
    requires
        n.x + n.w < 0x100_0000_0000,
        n.y + n.yo + n.lh < 0x100_0000_0000,
    ensures
        c.0 == center_col2(n.geom()),
        c.1 == center_row2(n.geom()),
        0 <= c.0 < 0x200_0000_0000,
        0 <= c.1 < 0x200_0000_0000,
{
    ((2 * n.x + n.w) as i128, (2 * (n.y + n.yo) + n.lh) as i128)
}

/// A node whose centre is above (`up`) or below the centre of `from`,
/// nearest by [`vertical_distance`] (see [`is_nearest`]).
fn nearest_vertical(l: &LayoutEngine, a: NodeId, from: &LayoutNode, up: bool) -> (r: Option<NodeId>)
    requires
        crate::layout::small(crate::layout::geoms(l.nodes@)),
        from.x + from.w < 0x100_0000_0000,
        from.y + from.yo + from.lh < 0x100_0000_0000,
    ensures
        (exists|i: int|
            0 <= i < crate::layout::geoms(l.nodes@).len() && vertical_candidate(
                a,
                from.geom(),
                up,
                #[trigger] crate::layout::geoms(l.nodes@)[i],
            )) ==> (r matches Some(n) && is_nearest(crate::layout::geoms(l.nodes@), a, from.geom(), up, n)),
        !(exists|i: int|
            0 <= i < crate::layout::geoms(l.nodes@).len() && vertical_candidate(
                a,
                from.geom(),
                up,
                #[trigger] crate::layout::geoms(l.nodes@)[i],
            )) ==> r is None,
{
    let ghost g = crate::layout::geoms(l.nodes@);
    let ghost fg = from.geom();
    let (fx, fy) = centre2(from);
    let mut best: Option<(usize, i128)> = None;
    let mut i: usize = 0;
    while i < l.nodes.len()
        invariant
            0 <= i <= l.nodes@.len(),
            g == crate::layout::geoms(l.nodes@),
            crate::layout::small(g),
            fg == from.geom(),
            fx == center_col2(fg),
            fy == center_row2(fg),
            0 <= fx < 0x200_0000_0000,
            0 <= fy < 0x200_0000_0000,
            best matches Some(b) ==> {
                &&& b.0 < i
                &&& vertical_candidate(a, fg, up, g[b.0 as int])
                &&& b.1 == vertical_distance(g[b.0 as int], fg)
                &&& forall|j: int| 0 <= j < i && vertical_candidate(a, fg, up, #[trigger] g[j]) ==> b.1
                    <= vertical_distance(g[j], fg)
            },
            best is None ==> forall|j: int| 0 <= j < i ==> !vertical_candidate(a, fg, up, #[trigger] g[j]),
        decreases l.nodes@.len() - i,
    {
        let n = &l.nodes[i];
        proof {
            assert(g[i as int] == n.geom());
            assert(l.nodes@.contains(*n));
            crate::layout::lemma_small_member(g, l.nodes@, *n);
        }
        let (nx, ny) = centre2(n);
        let candidate = !crate::tree::node_id_eq(n.id, a) && if up {
            ny < fy
        } else {
            ny > fy
        };
        if candidate {
            let dy = 15 * (ny - fy);
            let dx = nx - fx;
            proof {
                assert(-0x200_0000_0000 < dx < 0x200_0000_0000);
                assert(-0x2000_0000_0000 < dy < 0x2000_0000_0000);
                assert(0 <= dy * dy < 0x400_0000_0000_0000_0000_0000) by (nonlinear_arith)
                    requires
                        -0x2000_0000_0000 < dy < 0x2000_0000_0000,
                ;
                assert(0 <= dx * dx < 0x4_0000_0000_0000_0000_0000) by (nonlinear_arith)
                    requires
                        -0x200_0000_0000 < dx < 0x200_0000_0000,
                ;
            }
            let d = dy * dy + dx * dx;
            let better = match best {
                None => true,
                Some(b) => d < b.1,
            };
            if better {
                best = Some((i, d));
            }
        }
        i = i + 1;
    }
    match best {
        Some(b) => {
            proof {
                assert(g[b.0 as int].0 == l.nodes@[b.0 as int].id);
            }
            Some(l.nodes[b.0].id)
        },
        None => None,
    }
}

/// Moves up (`up`) or down by the layout (see [`vertical_move`]); says
/// whether the active node changed.
fn go_vertical(app: &mut AppState, up: bool) -> (moved: bool)
    requires
        arena_ok(old(app).tree),
        old(app).active_ok(),
        old(app).root_id matches Some(r) ==> old(app).tree_view().contains_key(r),
    ensures
        *final(app) == (AppState { active_node_id: final(app).active_node_id, ..*old(app) }),
        moved == (final(app).active_node_id != old(app).active_node_id),
        old(app).active_node_id is None ==> !moved,
        old(app).active_node_id matches Some(a) ==> {
            &&& moved ==> vertical_move(*old(app), a, up, final(app).active_node_id)
            &&& layout_ready(*old(app)) ==> vertical_move(*old(app), a, up, final(app).active_node_id)
        },
{
    let a = match app.active_node_id {
        Some(a) => a,
        None => {
            return false;
        },
    };
    let l = match usable_layout(app) {
        Some(l) => l,
        None => {
            return false;
        },
    };
    let ghost g = crate::layout::geoms(l.nodes@);
    let parent = node_parent(&app.tree, a);
    let cur = l.get(a);
    match (parent, cur) {
        (Some(p), Some(e)) => {
            proof {
                crate::tree::lemma_rank_exists(app.tree_view());
                assert(app.tree_view()[a].1 == Some(p));
                assert(app.tree_view().contains_key(p));
                crate::layout::lemma_small_member(g, l.nodes@, *e);
            }
            let cs = node_children(&app.tree, p);
            match scan_siblings(&l, &cs, a, e.y + e.yo, up) {
                Some(found) => {
                    proof {
                        crate::tree::lemma_rank_exists(app.tree_view());
                        assert(found.0 != a) by {
                            lemma_best_other(g, cs@, a, (e.y + e.yo) as int, up, cs@.len() as int);
                        }
                    }
                    app.active_node_id = Some(found.0);
                    return true;
                },
                None => {},
            }
        },
        _ => {},
    }
    match cur {
        Some(from) => {
            proof {
                crate::layout::lemma_small_member(g, l.nodes@, *from);
            }
            match nearest_vertical(&l, a, from, up) {
                Some(n) => {
                    proof {
                        let i = choose|i: int|
                            0 <= i < g.len() && (#[trigger] g[i]).0 == n && vertical_candidate(a, from.geom(), up, g[i])
                                && forall|j: int|
                                0 <= j < g.len() && vertical_candidate(a, from.geom(), up, #[trigger] g[j])
                                    ==> vertical_distance(g[i], from.geom()) <= vertical_distance(g[j], from.geom());
                        assert(n != a);
                    }
                    app.active_node_id = Some(n);
                    true
                },
                None => false,
            }
        },
        None => false,
    }
}

proof fn lemma_best_other(g: Seq<NodeGeom>, cs: Seq<NodeId>, a: NodeId, cur: int, up: bool, k: int)
    ensures
        best_sibling(g, cs, a, cur, up, k) matches Some(s) ==> s.0 != a,
    decreases k,
{
    if k > 0 {
        lemma_best_other(g, cs, a, cur, up, k - 1);
    }
}

/// Moves to the node above (see [`vertical_move`]); says whether the active
/// node changed (the front end then scrolls it into view).
pub fn go_up(app: &mut AppState) -> (moved: bool)
    requires
        arena_ok(old(app).tree),
        old(app).active_ok(),
        old(app).root_id matches Some(r) ==> old(app).tree_view().contains_key(r),
    ensures
        *final(app) == (AppState { active_node_id: final(app).active_node_id, ..*old(app) }),
        moved == (final(app).active_node_id != old(app).active_node_id),
        old(app).active_node_id is None ==> !moved,
        old(app).active_node_id matches Some(a) ==> {
            &&& moved ==> vertical_move(*old(app), a, true, final(app).active_node_id)
            &&& layout_ready(*old(app)) ==> vertical_move(*old(app), a, true, final(app).active_node_id)
        },
{
    go_vertical(app, true)
}

/// Moves to the node below (see [`vertical_move`]); says whether the active
/// node changed (the front end then scrolls it into view).
pub fn go_down(app: &mut AppState) -> (moved: bool)
    requires
        arena_ok(old(app).tree),
        old(app).active_ok(),
        old(app).root_id matches Some(r) ==> old(app).tree_view().contains_key(r),
    ensures
        *final(app) == (AppState { active_node_id: final(app).active_node_id, ..*old(app) }),
        moved == (final(app).active_node_id != old(app).active_node_id),
        old(app).active_node_id is None ==> !moved,
        old(app).active_node_id matches Some(a) ==> {
            &&& moved ==> vertical_move(*old(app), a, false, final(app).active_node_id)
            &&& layout_ready(*old(app)) ==> vertical_move(*old(app), a, false, final(app).active_node_id)
        },
{
    go_vertical(app, false)
}

/// `|a - b|`.
pub open spec fn gap(a: int, b: int) -> int {
    if a >= b {
        a - b
    } else {
        b - a
    }
}

/// Scanning the first `k` of `cs`: the node with a place whose centre row
/// is nearest to `cur2` (in half rows), the first such, with its distance.
pub open spec fn best_child(g: Seq<NodeGeom>, cs: Seq<NodeId>, cur2: int, k: int) -> Option<(NodeId, int)>
    decreases k,
{
    if k <= 0 {
        None
    } else {
        let prev = best_child(g, cs, cur2, k - 1);
        let c = cs[k - 1];
        match lookup(g, c) {
            Some(e) => {
                let d = gap(center_row2(e), cur2);
                match prev {
                    Some(q) => if d < q.1 {
                        Some((c, d))
                    } else {
                        prev
                    },
                    None => Some((c, d)),
                }
            },
            None => prev,
        }
    }
}

/// The tree as moving right leaves it: a collapsed active node with
/// children is expanded.
pub open spec fn right_tree(app: AppState, a: NodeId) -> crate::tree::TreeView {
    let t = app.tree_view();
    if t[a].0.1 && t[a].2.len() > 0 {
        crate::actions::view::with_collapsed(t, a, false)
    } else {
        t
    }
}

fn scan_children(l: &LayoutEngine, cs: &Vec<NodeId>, cur2: i128) -> (r: Option<(NodeId, i128)>)
    requires
        crate::layout::small(crate::layout::geoms(l.nodes@)),
        0 <= cur2 < 0x200_0000_0000,
    ensures
        r matches Some(p) ==> best_child(crate::layout::geoms(l.nodes@), cs@, cur2 as int, cs@.len() as int)
            == Some((p.0, p.1 as int)),
        r is None ==> best_child(crate::layout::geoms(l.nodes@), cs@, cur2 as int, cs@.len() as int) is None,
{
    let ghost g = crate::layout::geoms(l.nodes@);
    let mut best: Option<(NodeId, i128)> = None;
    let mut i: usize = 0;
    while i < cs.len()
        invariant
            0 <= i <= cs@.len(),
            g == crate::layout::geoms(l.nodes@),
            crate::layout::small(g),
            0 <= cur2 < 0x200_0000_0000,
            best matches Some(p) ==> best_child(g, cs@, cur2 as int, i as int) == Some((p.0, p.1 as int)),
            best is None ==> best_child(g, cs@, cur2 as int, i as int) is None,
        decreases cs@.len() - i,
    {
        let c = cs[i];
        match l.get(c) {
            Some(n) => {
                proof {
                    crate::layout::lemma_small_member(g, l.nodes@, *n);
                }
                let (_, row2) = centre2(n);
                let d = if row2 >= cur2 {
                    row2 - cur2
                } else {
                    cur2 - row2
                };
                let better = match best {
                    Some(q) => d < q.1,
                    None => true,
                };
                if better {
                    best = Some((c, d));
                }
            },
            None => {},
        }
        i = i + 1;
    }
    best
}

/// Moves to the child of the active node whose centre row is nearest to
/// its own (the first such), expanding the active node first when it is
/// collapsed and has children (the undo history does not record that).
/// Says whether the active node changed.
pub fn go_right(app: &mut AppState) -> (moved: bool)
    requires
        arena_ok(old(app).tree),
        old(app).active_ok(),
        old(app).root_id matches Some(r) ==> old(app).tree_view().contains_key(r),
    ensures
        arena_ok(final(app).tree),
        *final(app) == (AppState { tree: final(app).tree, active_node_id: final(app).active_node_id, ..*old(app) }),
        old(app).active_node_id is None ==> *final(app) == *old(app) && !moved,
        old(app).active_node_id matches Some(a) ==> {
            let after = AppState { tree: final(app).tree, ..*old(app) };
            let cur = lookup(app_layout(after), a);
            let pick = match cur {
                Some(e) => best_child(app_layout(after), old(app).tree_view()[a].2, center_row2(e), old(app).tree_view()[a].2.len() as int),
                None => None,
            };
            &&& final(app).tree_view() == right_tree(*old(app), a)
            &&& moved == (final(app).active_node_id != old(app).active_node_id)
            &&& moved ==> (pick matches Some(q) && final(app).active_node_id == Some(q.0))
            &&& layout_ready(after) ==> final(app).active_node_id == match pick {
                Some(q) => Some(q.0),
                None => Some(a),
            }
        },
{
    let a = match app.active_node_id {
        Some(a) => a,
        None => {
            return false;
        },
    };
    let children = node_children(&app.tree, a);
    let collapsed = crate::tree::arena_get_data(&app.tree, a).unwrap().is_collapsed;
    if collapsed && children.len() > 0 {
        crate::actions::view::set_collapsed(&mut app.tree, a, false);
    }
    proof {
        assert(app.tree_view()[a].2 == children@);
    }
    let l = match usable_layout(app) {
        Some(l) => l,
        None => {
            return false;
        },
    };
    let ghost g = crate::layout::geoms(l.nodes@);
    match l.get(a) {
        Some(e) => {
            proof {
                crate::layout::lemma_small_member(g, l.nodes@, *e);
            }
            let (_, cur2) = centre2(e);
            match scan_children(&l, &children, cur2) {
                Some(q) => {
                    proof {
                        lemma_child_in(g, children@, cur2 as int, children@.len() as int);
                    }
                    let moved = !crate::tree::node_id_eq(q.0, a);
                    app.active_node_id = Some(q.0);
                    moved
                },
                None => false,
            }
        },
        None => false,
    }
}

proof fn lemma_child_in(g: Seq<NodeGeom>, cs: Seq<NodeId>, cur2: int, k: int)
    ensures
        best_child(g, cs, cur2, k) matches Some(q) ==> exists|i: int| 0 <= i < k && cs[i] == q.0,
    decreases k,
{
    if k > 0 {
        lemma_child_in(g, cs, cur2, k - 1);
    }
}

/// `n` has a place whose key (by `top`: its text row; else the row below
/// its text) is the smallest (`top`) or largest of all places.
pub open spec fn is_extreme(g: Seq<NodeGeom>, top: bool, n: NodeId) -> bool {
    exists|i: int|
        0 <= i < g.len() && (#[trigger] g[i]).0 == n && forall|j: int|
            0 <= j < g.len() ==> if top {
                text_row(g[i]) <= text_row(#[trigger] g[j])
            } else {
                text_row(g[i]) + g[i].5 >= text_row(#[trigger] g[j]) + g[j].5
            }
}

/// A node whose text row is the highest (`top`) or whose text reaches
/// lowest, among all places.
fn extreme_node(l: &LayoutEngine, top: bool) -> (r: Option<NodeId>)
    requires
        crate::layout::small(crate::layout::geoms(l.nodes@)),
    ensures
        l.nodes@.len() > 0 ==> (r matches Some(n) && is_extreme(crate::layout::geoms(l.nodes@), top, n)),
        l.nodes@.len() == 0 ==> r is None,
{
    let ghost g = crate::layout::geoms(l.nodes@);
    let mut best: Option<(usize, u128)> = None;
    let mut i: usize = 0;
    while i < l.nodes.len()
        invariant
            0 <= i <= l.nodes@.len(),
            g == crate::layout::geoms(l.nodes@),
            crate::layout::small(g),
            best matches Some(b) ==> {
                &&& b.0 < i
                &&& b.1 == if top {
                    text_row(g[b.0 as int])
                } else {
                    text_row(g[b.0 as int]) + g[b.0 as int].5
                }
                &&& forall|j: int|
                    0 <= j < i ==> if top {
                        text_row(g[b.0 as int]) <= text_row(#[trigger] g[j])
                    } else {
                        text_row(g[b.0 as int]) + g[b.0 as int].5 >= text_row(#[trigger] g[j]) + g[j].5
                    }
            },
            best is None ==> i == 0,
        decreases l.nodes@.len() - i,
    {
        let n = &l.nodes[i];
        proof {
            assert(g[i as int] == n.geom());
            assert(l.nodes@.contains(*n));
            crate::layout::lemma_small_member(g, l.nodes@, *n);
        }
        let key = if top {
            n.y + n.yo
        } else {
            n.y + n.yo + n.lh
        };
        let better = match best {
            None => true,
            Some(b) => if top {
                key < b.1
            } else {
                key > b.1
            },
        };
        if better {
            best = Some((i, key));
        }
        i = i + 1;
    }
    match best {
        Some(b) => {
            proof {
                assert(g[b.0 as int].0 == l.nodes@[b.0 as int].id);
            }
            Some(l.nodes[b.0].id)
        },
        None => None,
    }
}

/// Moves to the node whose text is highest on the map; says whether it
/// found one (the front end then scrolls to the top left corner).
pub fn go_to_top(app: &mut AppState) -> (found: bool)
    requires
        arena_ok(old(app).tree),
        old(app).root_id matches Some(r) ==> old(app).tree_view().contains_key(r),
    ensures
        *final(app) == (AppState { active_node_id: final(app).active_node_id, ..*old(app) }),
        found ==> (final(app).active_node_id matches Some(n) && is_extreme(app_layout(*old(app)), true, n)),
        !found ==> *final(app) == *old(app),
        layout_ready(*old(app)) && app_layout(*old(app)).len() > 0 ==> found,
{
    go_to_extreme(app, true)
}

/// Moves to the node whose text reaches lowest on the map; says whether it
/// found one (the front end then scrolls it into view).
pub fn go_to_bottom(app: &mut AppState) -> (found: bool)
    requires
        arena_ok(old(app).tree),
        old(app).root_id matches Some(r) ==> old(app).tree_view().contains_key(r),
    ensures
        *final(app) == (AppState { active_node_id: final(app).active_node_id, ..*old(app) }),
        found ==> (final(app).active_node_id matches Some(n) && is_extreme(app_layout(*old(app)), false, n)),
        !found ==> *final(app) == *old(app),
        layout_ready(*old(app)) && app_layout(*old(app)).len() > 0 ==> found,
{
    go_to_extreme(app, false)
}

fn go_to_extreme(app: &mut AppState, top: bool) -> (found: bool)
    requires
        arena_ok(old(app).tree),
        old(app).root_id matches Some(r) ==> old(app).tree_view().contains_key(r),
    ensures
        *final(app) == (AppState { active_node_id: final(app).active_node_id, ..*old(app) }),
        found ==> (final(app).active_node_id matches Some(n) && is_extreme(app_layout(*old(app)), top, n)),
        !found ==> *final(app) == *old(app),
        layout_ready(*old(app)) && app_layout(*old(app)).len() > 0 ==> found,
{
    let l = match usable_layout(app) {
        Some(l) => l,
        None => {
            return false;
        },
    };
    match extreme_node(&l, top) {
        Some(n) => {
            app.active_node_id = Some(n);
            true
        },
        None => false,
    }
}

/// The text row of the place of `c` in `g` (when it has one).
pub open spec fn row_of(g: Seq<NodeGeom>, c: NodeId) -> int {
    text_row(lookup(g, c)->0)
}

/// `c` is a node other than `a` with a place in `g`.
pub open spec fn placed_other(g: Seq<NodeGeom>, a: NodeId, c: NodeId) -> bool {
    c != a && lookup(g, c) is Some
}

/// `r` lies strictly above `cur` (`up`) or strictly below it.
pub open spec fn beyond(r: int, cur: int, up: bool) -> bool {
    if up {
        r < cur
    } else {
        r > cur
    }
}

/// What [`best_sibling`] finds among the first `k` of `cs`: a node of them
/// other than `a`, placed beyond `cur`, with no other such node strictly
/// between its row and `cur`; none when no node of them is placed beyond
/// `cur`.
pub proof fn lemma_best_sibling(g: Seq<NodeGeom>, cs: Seq<NodeId>, a: NodeId, cur: int, up: bool, k: int)
    requires
        0 <= k <= cs.len(),
    ensures
        best_sibling(g, cs, a, cur, up, k) matches Some(q) ==> {
            &&& exists|i: int| 0 <= i < k && cs[i] == q.0
            &&& placed_other(g, a, q.0)
            &&& q.1 == row_of(g, q.0)
            &&& beyond(q.1, cur, up)
            &&& forall|j: int|
                0 <= j < k && placed_other(g, a, #[trigger] cs[j]) && beyond(row_of(g, cs[j]), cur, up) ==> !beyond(
                    row_of(g, cs[j]),
                    q.1,
                    !up,
                )
        },
        best_sibling(g, cs, a, cur, up, k) is None ==> forall|j: int|
            0 <= j < k && placed_other(g, a, #[trigger] cs[j]) ==> !beyond(row_of(g, cs[j]), cur, up),
    decreases k,
{
    if k > 0 {
        lemma_best_sibling(g, cs, a, cur, up, k - 1);
    }
}

/// What [`best_child`] finds among the first `k` of `cs`: a node of them
/// with a place whose centre row is at least as near to `cur2` as that of
/// every other node of them with a place; none when none has a place.
pub proof fn lemma_best_child(g: Seq<NodeGeom>, cs: Seq<NodeId>, cur2: int, k: int)
    requires
        0 <= k <= cs.len(),
    ensures
        best_child(g, cs, cur2, k) matches Some(q) ==> {
            &&& exists|i: int| 0 <= i < k && cs[i] == q.0
            &&& lookup(g, q.0) is Some
            &&& q.1 == gap(center_row2(lookup(g, q.0)->0), cur2)
            &&& forall|j: int|
                0 <= j < k && lookup(g, #[trigger] cs[j]) is Some ==> q.1 <= gap(center_row2(lookup(g, cs[j])->0), cur2)
        },
        best_child(g, cs, cur2, k) is None ==> forall|j: int| 0 <= j < k ==> lookup(g, #[trigger] cs[j]) is None,
    decreases k,
{
    if k > 0 {
        lemma_best_child(g, cs, cur2, k - 1);
    }
}

} // verus!
