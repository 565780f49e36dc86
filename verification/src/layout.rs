//! Where each node of the map goes: its column and row on an unbounded
//! canvas, its size, and the points that connection lines leave and reach.
//! Positions are whole columns and rows.
use crate::app::AppState;
use crate::config::AppConfig;
use crate::model::{hidden_marker, starts_with, Node};
use crate::tree::{
    arena_get_data, arena_nodes, lemma_rank_exists, node_children, ranked, tree_rank, tree_wf, TreeView,
};
use crate::ui::text::{display_width, str_width, wrap_text, TextWrapper};
use indextree::{Arena, NodeId};
use vstd::prelude::*;

verus! {

/// The root's left padding.
pub const LEFT_PADDING: u128 = 1;

/// The columns between a node and the ones it leads to: a space and the
/// connection line.
pub const NODE_CONNECTION_SPACING: u128 = 6;

// ---------------------------------------------------------------------------
// The model
// ---------------------------------------------------------------------------

/// The node carries the hidden flag or the hidden marker.
pub open spec fn hidden_in(t: TreeView, c: NodeId) -> bool {
    t[c].0.2 || starts_with(t[c].0.0, hidden_marker())
}

/// The nodes of `cs` that are shown: all, or with `show_hidden` off, those
/// that are not hidden.
pub open spec fn shown_among(t: TreeView, cs: Seq<NodeId>, show_hidden: bool) -> Seq<NodeId>
    decreases cs.len(),
{
    if cs.len() == 0 {
        Seq::empty()
    } else {
        let r = shown_among(t, cs.drop_last(), show_hidden);
        if show_hidden || !hidden_in(t, cs.last()) {
            r.push(cs.last())
        } else {
            r
        }
    }
}

/// The shown children of `id`.
pub open spec fn shown_children(t: TreeView, id: NodeId, cfg: AppConfig) -> Seq<NodeId> {
    shown_among(t, t[id].2, cfg.show_hidden)
}

/// A node is laid out like a leaf when it has no shown children or is
/// collapsed.
pub open spec fn leaf_like(t: TreeView, id: NodeId, cfg: AppConfig) -> bool {
    shown_children(t, id, cfg).len() == 0 || t[id].0.1
}

/// The width a node's title is kept to: the leaf width for leaf-like nodes,
/// else the parent width.
pub open spec fn width_limit(t: TreeView, id: NodeId, cfg: AppConfig) -> nat {
    if leaf_like(t, id, cfg) {
        cfg.max_leaf_node_width as nat
    } else {
        cfg.max_parent_node_width as nat
    }
}

/// A title is wrapped when it is wider than 1.3 times its limit.
pub open spec fn wraps(title_width: nat, limit: nat) -> bool {
    10 * title_width > 13 * limit
}

/// The width of the widest of `ls` (0 for none).
pub open spec fn widest(ls: Seq<Seq<char>>) -> nat
    decreases ls.len(),
{
    if ls.len() == 0 {
        0
    } else {
        let r = widest(ls.drop_last());
        let w = display_width(ls.last());
        if w > r {
            w
        } else {
            r
        }
    }
}

/// A node's width and number of lines: its title on one line, or wrapped at
/// its limit when it is wider than 1.3 times the limit.
pub open spec fn node_size(t: TreeView, id: NodeId, cfg: AppConfig) -> (nat, nat) {
    let title = t[id].0.0;
    let tw = display_width(title);
    let limit = width_limit(t, id, cfg);
    if wraps(tw, limit) {
        let ls = wrap_text(title, limit);
        (widest(ls), ls.len())
    } else {
        (tw, 1)
    }
}

/// The column of the vertical line that joins a node's children: four
/// columns after the node, when it has two or more shown children and is
/// expanded.
pub open spec fn spine_of(t: TreeView, id: NodeId, cfg: AppConfig, x: int) -> Option<int> {
    if leaf_like(t, id, cfg) || t[id].0.1 || shown_children(t, id, cfg).len() == 1 {
        None
    } else {
        Some(x + node_size(t, id, cfg).0 + 4)
    }
}

/// The rows a node takes: its lines plus the line spacing, or, when it is
/// expanded and its shown children take more, theirs.
pub open spec fn node_height(t: TreeView, id: NodeId, cfg: AppConfig) -> nat
    decreases tree_rank(t)[id], shown_children(t, id, cfg).len() + 1,
{
    let cs = shown_children(t, id, cfg);
    let own = (node_size(t, id, cfg).1 + cfg.line_spacing) as nat;
    let total = if !t[id].0.1 && cs.len() > 0 {
        heights_sum(t, id, cfg, cs.len() as int)
    } else {
        0
    };
    if total > 0 {
        if total > own {
            total
        } else {
            own
        }
    } else {
        own
    }
}

/// The rows of the first `k` shown children of `p`, together.
pub open spec fn heights_sum(t: TreeView, p: NodeId, cfg: AppConfig, k: int) -> nat
    decreases tree_rank(t)[p], k,
{
    let cs = shown_children(t, p, cfg);
    if k <= 0 || k > cs.len() {
        0
    } else {
        let c = cs[k - 1];
        heights_sum(t, p, cfg, k - 1) + if tree_rank(t)[c] < tree_rank(t)[p] {
            node_height(t, c, cfg)
        } else {
            0
        }
    }
}

/// The place of one node: its id, column, row, width, rows, lines, the
/// offset of its text below its row, and its children's spine.
pub type NodeGeom = (NodeId, int, int, nat, nat, nat, nat, Option<int>);

/// The text of a node is centred in its rows, rounding half rows down the
/// screen.
pub open spec fn text_offset(h: nat, lh: nat) -> nat {
    ((h - lh + 1) / 2) as nat
}

/// The places of the nodes of the subtree at `id`, the node at column `x`
/// and row `y`: each expanded node's shown children stand seven columns
/// after it, one below the other from its row; children first, then the
/// node.
pub open spec fn layout_of(t: TreeView, id: NodeId, cfg: AppConfig, x: int, y: int) -> Seq<NodeGeom>
    decreases tree_rank(t)[id], shown_children(t, id, cfg).len() + 1,
{
    let (w, lh) = node_size(t, id, cfg);
    let h = node_height(t, id, cfg);
    let kids = if t[id].0.1 {
        Seq::empty()
    } else {
        children_layout(t, id, cfg, x + w + 7, y, shown_children(t, id, cfg).len() as int)
    };
    kids.push((id, x, y, w, h, lh, text_offset(h, lh), spine_of(t, id, cfg, x)))
}

/// The places of the subtrees of the first `k` shown children of `p`, the
/// children at column `cx`, the first at row `y`.
pub open spec fn children_layout(t: TreeView, p: NodeId, cfg: AppConfig, cx: int, y: int, k: int) -> Seq<
    NodeGeom,
>
    decreases tree_rank(t)[p], k,
{
    let cs = shown_children(t, p, cfg);
    if k <= 0 || k > cs.len() {
        Seq::empty()
    } else {
        let c = cs[k - 1];
        children_layout(t, p, cfg, cx, y, k - 1) + if tree_rank(t)[c] < tree_rank(t)[p] {
            layout_of(t, c, cfg, cx, y + heights_sum(t, p, cfg, k - 1))
        } else {
            Seq::empty()
        }
    }
}

/// The columns the subtree at `id` takes, from the node's column to seven
/// after its farthest node.
pub open spec fn x_extent(t: TreeView, id: NodeId, cfg: AppConfig) -> nat
    decreases tree_rank(t)[id], shown_children(t, id, cfg).len() + 1,
{
    node_size(t, id, cfg).0 + 7 + if t[id].0.1 {
        0
    } else {
        kids_extent(t, id, cfg, shown_children(t, id, cfg).len() as int)
    }
}

/// The largest extent among the first `k` shown children of `p`.
pub open spec fn kids_extent(t: TreeView, p: NodeId, cfg: AppConfig, k: int) -> nat
    decreases tree_rank(t)[p], k,
{
    let cs = shown_children(t, p, cfg);
    if k <= 0 || k > cs.len() {
        0
    } else {
        let c = cs[k - 1];
        let r = kids_extent(t, p, cfg, k - 1);
        let e = if tree_rank(t)[c] < tree_rank(t)[p] {
            x_extent(t, c, cfg)
        } else {
            0
        };
        if e > r {
            e
        } else {
            r
        }
    }
}

/// The rightmost column that a node of `g` reaches (0 for none).
pub open spec fn rightmost(g: Seq<NodeGeom>) -> int
    decreases g.len(),
{
    if g.len() == 0 {
        0
    } else {
        let r = rightmost(g.drop_last());
        let e = g.last().1 + g.last().3;
        if e > r {
            e
        } else {
            r
        }
    }
}

// ---------------------------------------------------------------------------
// Which nodes are laid out, and in which columns
// ---------------------------------------------------------------------------

/// `c` is a shown child of the expanded node of the place `e2`, and the
/// place `e` stands seven columns after `e2`'s right edge.
pub open spec fn placed_under(t: TreeView, cfg: AppConfig, e2: NodeGeom, c: NodeId) -> bool {
    &&& !t[e2.0].0.1
    &&& shown_children(t, e2.0, cfg).contains(c)
}

/// Column of the places of the children of the place `e2`.
pub open spec fn child_column(e2: NodeGeom) -> int {
    e2.1 + e2.3 + 7
}

proof fn lemma_contains_concat<A>(a: Seq<A>, b: Seq<A>, x: A)
    ensures
        (a + b).contains(x) <==> a.contains(x) || b.contains(x),
{
    if (a + b).contains(x) {
        let i = choose|i: int| 0 <= i < (a + b).len() && (a + b)[i] == x;
        if i < a.len() {
            assert(a[i] == x);
        } else {
            assert(b[i - a.len()] == x);
        }
    }
    if a.contains(x) {
        let i = choose|i: int| 0 <= i < a.len() && a[i] == x;
        assert((a + b)[i] == x);
    }
    if b.contains(x) {
        let i = choose|i: int| 0 <= i < b.len() && b[i] == x;
        assert((a + b)[a.len() + i] == x);
    }
}

proof fn lemma_contains_push<A>(a: Seq<A>, y: A, x: A)
    ensures
        a.push(y).contains(x) <==> a.contains(x) || x == y,
{
    lemma_contains_concat(a, seq![y], x);
    assert(a.push(y) =~= a + seq![y]);
    assert(seq![y][0] == y);
    if seq![y].contains(x) {
        let i = choose|i: int| 0 <= i < 1 && seq![y][i] == x;
        assert(i == 0);
    }
    if x == y {
        assert(seq![y].contains(x));
    }
}

/// The places of the subtree at `x` are places of nodes of the subtree,
/// each as wide as the node; the last is `x`'s own, at column `cx`; every
/// other node hangs from an expanded node with a place there, seven columns
/// after it; and every shown child of an expanded node with a place there
/// has a place too, seven columns after it.
pub proof fn lemma_layout_shape(t: TreeView, x: NodeId, cfg: AppConfig, cx: int, y: int)
    requires
        tree_wf(t),
        t.contains_key(x),
    ensures
        ({
            let g = layout_of(t, x, cfg, cx, y);
            &&& g.len() > 0
            &&& g.last().0 == x
            &&& g.last().1 == cx
            &&& forall|e: NodeGeom| #[trigger] g.contains(e) ==> t.contains_key(e.0) && tree_rank(t)[e.0]
                <= tree_rank(t)[x] && e.3 == node_size(t, e.0, cfg).0 && e.7 == spine_of(t, e.0, cfg, e.1) && e.4 == node_height(t, e.0, cfg) && e.5 == node_size(t, e.0, cfg).1 && e.6 == text_offset(e.4, e.5)
            &&& forall|e: NodeGeom| #[trigger] g.contains(e) && e.0 == x ==> e == g.last()
            &&& forall|e: NodeGeom|
                #[trigger] g.contains(e) && e.0 != x ==> exists|e2: NodeGeom|
                    #[trigger] g.contains(e2) && placed_under(t, cfg, e2, e.0) && e.1 == child_column(e2)
            &&& forall|e2: NodeGeom, c: NodeId|
                #[trigger] g.contains(e2) && #[trigger] placed_under(t, cfg, e2, c) ==> exists|e: NodeGeom|
                    #[trigger] g.contains(e) && e.0 == c && e.1 == child_column(e2)
        }),
    decreases tree_rank(t)[x], shown_children(t, x, cfg).len() + 1,
{
    lemma_rank_exists(t);
    let g = layout_of(t, x, cfg, cx, y);
    let (w, lh) = node_size(t, x, cfg);
    let h = node_height(t, x, cfg);
    let own = (x, cx, y, w, h, lh, text_offset(h, lh), spine_of(t, x, cfg, cx));
    let cs = shown_children(t, x, cfg);
    let n = cs.len() as int;
    let kids = if t[x].0.1 {
        Seq::<NodeGeom>::empty()
    } else {
        children_layout(t, x, cfg, cx + w + 7, y, n)
    };
    assert(g == kids.push(own));
    if !t[x].0.1 {
        lemma_children_shape(t, x, cfg, cx + w + 7, y, n);
    }
    assert forall|e: NodeGeom| #[trigger] g.contains(e) implies t.contains_key(e.0) && tree_rank(t)[e.0]
        <= tree_rank(t)[x] && e.3 == node_size(t, e.0, cfg).0 && e.7 == spine_of(t, e.0, cfg, e.1) && e.4 == node_height(t, e.0, cfg) && e.5 == node_size(t, e.0, cfg).1 && e.6 == text_offset(e.4, e.5) by {
        lemma_contains_push(kids, own, e);
    }
    assert forall|e: NodeGeom| #[trigger] g.contains(e) && e.0 == x implies e == g.last() by {
        lemma_contains_push(kids, own, e);
    }
    assert forall|e: NodeGeom| #[trigger] g.contains(e) && e.0 != x implies exists|e2: NodeGeom|
        #[trigger] g.contains(e2) && placed_under(t, cfg, e2, e.0) && e.1 == child_column(e2) by {
        lemma_contains_push(kids, own, e);
        assert(kids.contains(e));
        assert(!t[x].0.1);
        if exists|i: int| 0 <= i < n && e.0 == cs[i] && e.1 == cx + w + 7 {
            let i = choose|i: int| 0 <= i < n && e.0 == cs[i] && e.1 == cx + w + 7;
            assert(cs.contains(cs[i]));
            lemma_contains_push(kids, own, own);
            assert(g.contains(own) && placed_under(t, cfg, own, e.0) && e.1 == child_column(own));
        } else {
            let e2 = choose|e2: NodeGeom|
                #[trigger] kids.contains(e2) && placed_under(t, cfg, e2, e.0) && e.1 == child_column(e2);
            lemma_contains_push(kids, own, e2);
        }
    }
    assert forall|e2: NodeGeom, c: NodeId|
        #[trigger] g.contains(e2) && #[trigger] placed_under(t, cfg, e2, c) implies exists|e: NodeGeom|
        #[trigger] g.contains(e) && e.0 == c && e.1 == child_column(e2) by {
        lemma_contains_push(kids, own, e2);
        if e2 == own {
            let i = choose|i: int| 0 <= i < cs.len() && cs[i] == c;
            let e = choose|e: NodeGeom| #[trigger] kids.contains(e) && e.0 == cs[i] && e.1 == cx + w + 7;
            lemma_contains_push(kids, own, e);
        } else {
            assert(kids.contains(e2));
            let e = choose|e: NodeGeom| #[trigger] kids.contains(e) && e.0 == c && e.1 == child_column(e2);
            lemma_contains_push(kids, own, e);
        }
    }
}

/// The places of the subtrees of the first `k` shown children of `p`, at
/// column `cx` (see [`lemma_layout_shape`]).
#[verifier::rlimit(50)]
#[verifier::spinoff_prover]
proof fn lemma_children_shape(t: TreeView, p: NodeId, cfg: AppConfig, cx: int, y: int, k: int)
    requires
        tree_wf(t),
        t.contains_key(p),
        0 <= k <= shown_children(t, p, cfg).len(),
    ensures
        ({
            let g = children_layout(t, p, cfg, cx, y, k);
            let cs = shown_children(t, p, cfg);
            &&& forall|e: NodeGeom| #[trigger] g.contains(e) ==> t.contains_key(e.0) && tree_rank(t)[e.0]
                < tree_rank(t)[p] && e.3 == node_size(t, e.0, cfg).0 && e.7 == spine_of(t, e.0, cfg, e.1) && e.4 == node_height(t, e.0, cfg) && e.5 == node_size(t, e.0, cfg).1 && e.6 == text_offset(e.4, e.5)
            &&& forall|e: NodeGeom|
                #[trigger] g.contains(e) ==> (exists|i: int| 0 <= i < k && e.0 == cs[i] && e.1 == cx) || exists|
                    e2: NodeGeom,
                | #[trigger] g.contains(e2) && placed_under(t, cfg, e2, e.0) && e.1 == child_column(e2)
            &&& forall|e2: NodeGeom, c: NodeId|
                #[trigger] g.contains(e2) && #[trigger] placed_under(t, cfg, e2, c) ==> exists|e: NodeGeom|
                    #[trigger] g.contains(e) && e.0 == c && e.1 == child_column(e2)
            &&& forall|i: int| #![trigger cs[i]] 0 <= i < k ==> exists|e: NodeGeom| #[trigger] g.contains(e) && e.0 == cs[i] && e.1 == cx
        }),
    decreases tree_rank(t)[p], k,
{
    lemma_rank_exists(t);
    let cs = shown_children(t, p, cfg);
    let g = children_layout(t, p, cfg, cx, y, k);
    if k > 0 {
        lemma_children_shape(t, p, cfg, cx, y, k - 1);
        let g0 = children_layout(t, p, cfg, cx, y, k - 1);
        let c = cs[k - 1];
        lemma_shown_from(t, t[p].2, cfg.show_hidden);
        assert(t[p].2.contains(c));
        let j = choose|j: int| 0 <= j < t[p].2.len() && t[p].2[j] == c;
        assert(t[p].2[j] == c);
        assert(t.contains_key(c));
        assert(tree_rank(t)[c] < tree_rank(t)[p]);
        let yc = y + heights_sum(t, p, cfg, k - 1);
        let lc = layout_of(t, c, cfg, cx, yc);
        assert(g == g0 + lc);
        lemma_layout_shape(t, c, cfg, cx, yc);
        assert forall|e: NodeGeom| #[trigger] g.contains(e) implies t.contains_key(e.0) && tree_rank(t)[e.0]
            < tree_rank(t)[p] && e.3 == node_size(t, e.0, cfg).0 && e.7 == spine_of(t, e.0, cfg, e.1) && e.4 == node_height(t, e.0, cfg) && e.5 == node_size(t, e.0, cfg).1 && e.6 == text_offset(e.4, e.5) by {
            lemma_contains_concat(g0, lc, e);
        }
        assert forall|e: NodeGeom| #[trigger] g.contains(e) implies (exists|i: int|
            0 <= i < k && e.0 == cs[i] && e.1 == cx) || exists|e2: NodeGeom|
            #[trigger] g.contains(e2) && placed_under(t, cfg, e2, e.0) && e.1 == child_column(e2) by {
            lemma_contains_concat(g0, lc, e);
            if g0.contains(e) {
                if exists|i: int| 0 <= i < k - 1 && e.0 == cs[i] && e.1 == cx {
                    let i = choose|i: int| 0 <= i < k - 1 && e.0 == cs[i] && e.1 == cx;
                    assert(0 <= i < k && e.0 == cs[i] && e.1 == cx);
                } else {
                    let e2 = choose|e2: NodeGeom|
                        #[trigger] g0.contains(e2) && placed_under(t, cfg, e2, e.0) && e.1 == child_column(e2);
                    lemma_contains_concat(g0, lc, e2);
                }
            } else if e.0 == c {
                assert(e == lc.last());
                assert(0 <= k - 1 < k && e.0 == cs[k - 1] && e.1 == cx);
            } else {
                let e2 = choose|e2: NodeGeom|
                    #[trigger] lc.contains(e2) && placed_under(t, cfg, e2, e.0) && e.1 == child_column(e2);
                lemma_contains_concat(g0, lc, e2);
            }
        }
        assert forall|e2: NodeGeom, d: NodeId|
            #[trigger] g.contains(e2) && #[trigger] placed_under(t, cfg, e2, d) implies exists|e: NodeGeom|
            #[trigger] g.contains(e) && e.0 == d && e.1 == child_column(e2) by {
            lemma_contains_concat(g0, lc, e2);
            if g0.contains(e2) {
                let e = choose|e: NodeGeom| #[trigger] g0.contains(e) && e.0 == d && e.1 == child_column(e2);
                lemma_contains_concat(g0, lc, e);
            } else {
                let e = choose|e: NodeGeom| #[trigger] lc.contains(e) && e.0 == d && e.1 == child_column(e2);
                lemma_contains_concat(g0, lc, e);
            }
        }
        assert forall|i: int| #![trigger cs[i]] 0 <= i < k implies exists|e: NodeGeom| #[trigger] g.contains(e)
            && e.0 == cs[i] && e.1 == cx by {
            if i < k - 1 {
                let e = choose|e: NodeGeom| #[trigger] g0.contains(e) && e.0 == cs[i] && e.1 == cx;
                lemma_contains_concat(g0, lc, e);
            } else {
                let e = lc.last();
                assert(lc.contains(e)) by {
                    assert(lc[lc.len() - 1] == e);
                }
                lemma_contains_concat(g0, lc, e);
            }
        }
    }
}

// ---------------------------------------------------------------------------
// The layout
// ---------------------------------------------------------------------------

/// The place of one node.
pub struct LayoutNode {
    pub id: NodeId,
    pub x: u128,
    pub y: u128,
    pub w: u128,
    pub h: u128,
    pub lh: u128,
    pub yo: u128,
    /// Where a parent's connection line reaches the node.
    pub entry_point: (u128, u128),
    /// Where the node's connection line to its children leaves it.
    pub exit_point: (u128, u128),
    /// The column of the vertical line that joins the node's children.
    pub child_spine_x: Option<u128>,
}

impl LayoutNode {
    pub open spec fn geom(&self) -> NodeGeom {
        (
            self.id,
            self.x as int,
            self.y as int,
            self.w as nat,
            self.h as nat,
            self.lh as nat,
            self.yo as nat,
            match self.child_spine_x {
                Some(s) => Some(s as int),
                None => None,
            },
        )
    }

    /// The connection points agree with the place: entry at the node's left
    /// edge, exit at its right edge, both on the row of its text.
    pub open spec fn points_ok(&self) -> bool {
        &&& self.x + self.w <= u128::MAX
        &&& self.y + self.yo <= u128::MAX
        &&& self.entry_point == (self.x, (self.y + self.yo) as u128)
        &&& self.exit_point == ((self.x + self.w) as u128, (self.y + self.yo) as u128)
    }
}

/// The places of the nodes of a map.
pub struct LayoutEngine {
    pub nodes: Vec<LayoutNode>,
    pub map_width: u128,
    pub map_height: u128,
    pub map_top: u128,
    pub map_bottom: u128,
}

/// The places of a list of layout nodes.
pub open spec fn geoms(v: Seq<LayoutNode>) -> Seq<NodeGeom> {
    v.map_values(|n: LayoutNode| n.geom())
}

impl LayoutEngine {
    /// A layout without nodes.
    pub fn new() -> (l: LayoutEngine)
        ensures
            l.nodes@.len() == 0,
            l.map_width == 0 && l.map_height == 0 && l.map_top == 0 && l.map_bottom == 0,
    {
        LayoutEngine { nodes: Vec::new(), map_width: 0, map_height: 0, map_top: 0, map_bottom: 0 }
    }

    /// The place of node `id`, if it has one (its first entry).
    pub fn get(&self, id: NodeId) -> (r: Option<&LayoutNode>)
        ensures
            r is None <==> lookup(geoms(self.nodes@), id) is None,
            r matches Some(n) ==> lookup(geoms(self.nodes@), id) == Some(n.geom()) && self.nodes@.contains(*n),
    {
        let ghost g = geoms(self.nodes@);
        let mut i: usize = 0;
        assert(g.skip(0) =~= g);
        while i < self.nodes.len()
            invariant
                0 <= i <= self.nodes@.len(),
                g == geoms(self.nodes@),
                lookup(g, id) == lookup(g.skip(i as int), id),
            decreases self.nodes@.len() - i,
        {
            proof {
                assert(g.skip(i as int).drop_first() =~= g.skip(i + 1));
                assert(g.skip(i as int)[0] == self.nodes@[i as int].geom());
            }
            if crate::tree::node_id_eq(self.nodes[i].id, id) {
                return Some(&self.nodes[i]);
            }
            i = i + 1;
        }
        proof {
            assert(g.skip(self.nodes@.len() as int) =~= Seq::<NodeGeom>::empty());
        }
        None
    }
}

/// A viewport: its left column, top row, right column and bottom row.
pub type Viewport = (u128, u128, u128, u128);

/// A node is visible in a viewport when its columns and its first line's
/// rows overlap it, edges included.
pub open spec fn is_visible(n: LayoutNode, vp: Viewport) -> bool {
    &&& n.x + n.w >= vp.0
    &&& n.x <= vp.2
    &&& n.y + n.lh >= vp.1
    &&& n.y <= vp.3
}

/// The ids of the nodes of `v` that are visible in `vp`, in the order of `v`.
pub open spec fn visible_ids(v: Seq<LayoutNode>, vp: Viewport) -> Seq<NodeId>
    decreases v.len(),
{
    if v.len() == 0 {
        Seq::empty()
    } else {
        let rest = visible_ids(v.drop_last(), vp);
        if is_visible(v.last(), vp) {
            rest.push(v.last().id)
        } else {
            rest
        }
    }
}

/// Whether `a + b >= c`, without overflow.
fn sum_reaches(a: u128, b: u128, c: u128) -> (r: bool)
    ensures
        r == (a + b >= c),
{
    a >= c || b >= c - a
}

impl LayoutEngine {
    /// The nodes visible in the viewport `vp`.
    pub fn get_visible_nodes(&self, vp: Viewport) -> (r: Vec<NodeId>)
        ensures
            r@ == visible_ids(self.nodes@, vp),
    {
        let mut r: Vec<NodeId> = Vec::new();
        let mut i: usize = 0;
        while i < self.nodes.len()
            invariant
                0 <= i <= self.nodes@.len(),
                r@ == visible_ids(self.nodes@.take(i as int), vp),
            decreases self.nodes@.len() - i,
        {
            let n = &self.nodes[i];
            proof {
                assert(self.nodes@.take(i + 1).drop_last() =~= self.nodes@.take(i as int));
                assert(self.nodes@.take(i + 1).last() == *n);
            }
            if sum_reaches(n.x, n.w, vp.0) && n.x <= vp.2 && sum_reaches(n.y, n.lh, vp.1) && n.y <= vp.3 {
                r.push(n.id);
            }
            i = i + 1;
        }
        proof {
            assert(self.nodes@.take(self.nodes@.len() as int) =~= self.nodes@);
        }
        r
    }
}

/// The first place of node `id` in `g`.
pub open spec fn lookup(g: Seq<NodeGeom>, id: NodeId) -> Option<NodeGeom>
    decreases g.len(),
{
    if g.len() == 0 {
        None
    } else if g[0].0 == id {
        Some(g[0])
    } else {
        lookup(g.drop_first(), id)
    }
}

/// The shown children of `id`.
pub(crate) fn filtered_children(tree: &Arena<Node>, id: NodeId, show_hidden: bool) -> (cs: Vec<NodeId>)
    requires
        tree_wf(arena_nodes(*tree)),
        arena_nodes(*tree).contains_key(id),
    ensures
        cs@ == shown_among(arena_nodes(*tree), arena_nodes(*tree)[id].2, show_hidden),
{
    let ghost t = arena_nodes(*tree);
    let all = node_children(tree, id);
    let mut cs: Vec<NodeId> = Vec::new();
    let mut i: usize = 0;
    while i < all.len()
        invariant
            t == arena_nodes(*tree),
            tree_wf(t),
            t.contains_key(id),
            all@ == t[id].2,
            0 <= i <= all@.len(),
            cs@ == shown_among(t, all@.take(i as int), show_hidden),
        decreases all@.len() - i,
    {
        let c = all[i];
        proof {
            assert(all@.take(i + 1).drop_last() =~= all@.take(i as int));
            assert(all@.take(i + 1).last() == c);
            assert(t[id].2[i as int] == c);
            assert(t.contains_key(c));
        }
        let keep = if show_hidden {
            true
        } else {
            !arena_get_data(tree, c).unwrap().is_hidden()
        };
        if keep {
            cs.push(c);
        }
        i = i + 1;
    }
    proof {
        assert(all@.take(all@.len() as int) =~= all@);
    }
    cs
}

/// The width of the widest line.
fn widest_line(lines: &Vec<String>) -> (w: usize)
    ensures
        w == widest(lines@.map_values(|l: String| l@)),
{
    let ghost lv = lines@.map_values(|l: String| l@);
    let mut w: usize = 0;
    let mut i: usize = 0;
    while i < lines.len()
        invariant
            0 <= i <= lines@.len(),
            lv == lines@.map_values(|l: String| l@),
            w == widest(lv.take(i as int)),
        decreases lines@.len() - i,
    {
        let lw = str_width(lines[i].as_str());
        proof {
            assert(lv.take(i + 1).drop_last() =~= lv.take(i as int));
            assert(lv.take(i + 1).last() == lines@[i as int]@);
        }
        if lw > w {
            w = lw;
        }
        i = i + 1;
    }
    proof {
        assert(lv.take(lines@.len() as int) =~= lv);
    }
    w
}

/// A node's width and number of lines (see [`node_size`]).
fn size_of(tree: &Arena<Node>, id: NodeId, cfg: &AppConfig, leafish: bool) -> (r: (u128, u128))
    requires
        tree_wf(arena_nodes(*tree)),
        arena_nodes(*tree).contains_key(id),
        leafish == leaf_like(arena_nodes(*tree), id, *cfg),
    ensures
        r.0 == node_size(arena_nodes(*tree), id, *cfg).0,
        r.1 == node_size(arena_nodes(*tree), id, *cfg).1,
        r.0 <= usize::MAX,
        1 <= r.1 <= usize::MAX,
{
    let node = arena_get_data(tree, id).unwrap();
    let limit = if leafish {
        cfg.max_leaf_node_width
    } else {
        cfg.max_parent_node_width
    };
    let tw = str_width(node.title.as_str());
    if 10 * (tw as u128) > 13 * (limit as u128) {
        let lines = TextWrapper::wrap(node.title.as_str(), limit);
        let w = widest_line(&lines);
        proof {
            let lv = lines@.map_values(|l: String| l@);
            assert(lv.len() == lines@.len());
            assert(wrap_text(node.title@, limit as nat).len() >= 1);
        }
        (w as u128, lines.len() as u128)
    } else {
        (tw as u128, 1)
    }
}

proof fn lemma_shown_from(t: TreeView, cs: Seq<NodeId>, sh: bool)
    ensures
        forall|k: int| 0 <= k < shown_among(t, cs, sh).len() ==> cs.contains(#[trigger] shown_among(t, cs, sh)[k]),
    decreases cs.len(),
{
    if cs.len() > 0 {
        lemma_shown_from(t, cs.drop_last(), sh);
        let r = shown_among(t, cs.drop_last(), sh);
        assert forall|k: int| 0 <= k < shown_among(t, cs, sh).len() implies cs.contains(
            #[trigger] shown_among(t, cs, sh)[k],
        ) by {
            if k < r.len() {
                assert(shown_among(t, cs, sh)[k] == r[k]);
                let j = choose|j: int| 0 <= j < cs.drop_last().len() && cs.drop_last()[j] == r[k];
                assert(cs[j] == r[k]);
            } else {
                assert(cs[cs.len() - 1] == cs.last());
            }
        }
    }
}

proof fn lemma_heights_mono(t: TreeView, p: NodeId, cfg: AppConfig, a: int, b: int)
    requires
        0 <= a <= b <= shown_children(t, p, cfg).len(),
    ensures
        heights_sum(t, p, cfg, a) <= heights_sum(t, p, cfg, b),
    decreases b - a,
{
    if a < b {
        lemma_heights_mono(t, p, cfg, a, b - 1);
    }
}

proof fn lemma_kids_extent(t: TreeView, p: NodeId, cfg: AppConfig, k: int, n: int)
    requires
        0 <= k < n <= shown_children(t, p, cfg).len(),
        tree_rank(t)[shown_children(t, p, cfg)[k]] < tree_rank(t)[p],
    ensures
        x_extent(t, shown_children(t, p, cfg)[k], cfg) <= kids_extent(t, p, cfg, n),
    decreases n - k,
{
    if k < n - 1 {
        lemma_kids_extent(t, p, cfg, k, n - 1);
    }
}

/// Places the subtree at `id` with the node at column `x` and row `y`,
/// appending the places to `out` (children first); returns the rows it
/// takes. Fails only when a column or row would not fit in 128 bits.
fn place(tree: &Arena<Node>, id: NodeId, cfg: &AppConfig, x: u128, y: u128, out: &mut Vec<LayoutNode>) -> (r:
    Option<u128>)
    requires
        tree_wf(arena_nodes(*tree)),
        arena_nodes(*tree).contains_key(id),
    ensures
        r matches Some(h) ==> {
            &&& geoms(final(out)@) == geoms(old(out)@) + layout_of(arena_nodes(*tree), id, *cfg, x as int, y as int)
            &&& forall|i: int| old(out)@.len() <= i < final(out)@.len() ==> (#[trigger] final(out)@[i]).points_ok()
            &&& h == node_height(arena_nodes(*tree), id, *cfg)
        },
        final(out)@.len() >= old(out)@.len(),
        forall|i: int| 0 <= i < old(out)@.len() ==> final(out)@[i] == old(out)@[i],
        x + x_extent(arena_nodes(*tree), id, *cfg) <= u128::MAX && y + node_height(arena_nodes(*tree), id, *cfg)
            <= u128::MAX ==> r is Some,
    decreases tree_rank(arena_nodes(*tree))[id],
{
    let ghost t = arena_nodes(*tree);
    proof {
        lemma_rank_exists(t);
    }
    let node = arena_get_data(tree, id).unwrap();
    let collapsed = node.is_collapsed;
    let cs = filtered_children(tree, id, cfg.show_hidden);
    let leafish = cs.len() == 0 || collapsed;
    let (w, lh) = size_of(tree, id, cfg, leafish);
    let ghost n = cs@.len() as int;
    let ghost start = out@;
    proof {
        lemma_shown_from(t, t[id].2, cfg.show_hidden);
        lemma_heights_mono(t, id, *cfg, 0, n);
    }
    let xw = match x.checked_add(w) {
        Some(v) => v,
        None => {
            return None;
        },
    };
    let cx = match xw.checked_add(7) {
        Some(v) => v,
        None => {
            return None;
        },
    };
    let spine = if leafish || collapsed || cs.len() == 1 {
        None
    } else {
        Some(xw + 4)
    };
    let own = match lh.checked_add(cfg.line_spacing as u128) {
        Some(v) => v,
        None => {
            return None;
        },
    };
    let mut total: u128 = 0;
    if !collapsed {
        let mut i: usize = 0;
        proof {
            assert(geoms(out@) =~= geoms(start) + children_layout(t, id, *cfg, cx as int, y as int, 0));
        }
        while i < cs.len()
            invariant
                t == arena_nodes(*tree),
                tree_wf(t),
                ranked(t, tree_rank(t)),
                t.contains_key(id),
                !t[id].0.1,
                cs@ == shown_children(t, id, *cfg),
                n == cs@.len(),
                0 <= i <= n,
                forall|k: int| 0 <= k < n ==> t[id].2.contains(#[trigger] cs@[k]),
                cx == x + node_size(t, id, *cfg).0 + 7,
                x_extent(t, id, *cfg) == node_size(t, id, *cfg).0 + 7 + kids_extent(t, id, *cfg, n),
                heights_sum(t, id, *cfg, n) <= node_height(t, id, *cfg),
                total == heights_sum(t, id, *cfg, i as int),
                start == old(out)@,
                out@.len() >= start.len(),
                forall|j: int| 0 <= j < start.len() ==> out@[j] == start[j],
                forall|j: int| start.len() <= j < out@.len() ==> (#[trigger] out@[j]).points_ok(),
                geoms(out@) == geoms(start) + children_layout(t, id, *cfg, cx as int, y as int, i as int),
            decreases n - i,
        {
            let c = cs[i];
            proof {
                assert(t[id].2.contains(c));
                let j = choose|j: int| 0 <= j < t[id].2.len() && t[id].2[j] == c;
                assert(tree_rank(t)[t[id].2[j]] < tree_rank(t)[id]);
                assert(t.contains_key(t[id].2[j]));
                lemma_kids_extent(t, id, *cfg, i as int, n);
                lemma_heights_mono(t, id, *cfg, i + 1, n);
            }
            let cy = match y.checked_add(total) {
                Some(v) => v,
                None => {
                    return None;
                },
            };
            let ghost before = out@;
            let hc = match place(tree, c, cfg, cx, cy, out) {
                Some(h) => h,
                None => {
                    return None;
                },
            };
            proof {
                assert(geoms(out@) =~= geoms(before) + layout_of(t, c, *cfg, cx as int, (y + total) as int));
                assert(children_layout(t, id, *cfg, cx as int, y as int, i + 1) == children_layout(
                    t,
                    id,
                    *cfg,
                    cx as int,
                    y as int,
                    i as int,
                ) + layout_of(t, c, *cfg, cx as int, y + heights_sum(t, id, *cfg, i as int)));
                assert(geoms(out@) =~= geoms(start) + children_layout(
                    t,
                    id,
                    *cfg,
                    cx as int,
                    y as int,
                    i + 1,
                ));
            }
            total = match total.checked_add(hc) {
                Some(v) => v,
                None => {
                    return None;
                },
            };
            i = i + 1;
        }
    }
    let h = if total > 0 {
        if total > own {
            total
        } else {
            own
        }
    } else {
        own
    };
    let yo = (h - lh + 1) / 2;
    let ey = match y.checked_add(yo) {
        Some(v) => v,
        None => {
            return None;
        },
    };
    let ghost kids = geoms(out@);
    out.push(
        LayoutNode {
            id,
            x,
            y,
            w,
            h,
            lh,
            yo,
            entry_point: (x, ey),
            exit_point: (xw, ey),
            child_spine_x: spine,
        },
    );
    proof {
        assert(geoms(out@) =~= kids.push(out@[out@.len() - 1].geom()));
        assert(geoms(out@) =~= geoms(start) + layout_of(t, id, *cfg, x as int, y as int));
    }
    Some(h)
}

impl LayoutEngine {
    /// The places of the nodes of the map shown from the root (see
    /// [`layout_of`]), the root at column 1 and row 0; the map's width is
    /// the rightmost column a node reaches, its height the rows the root
    /// takes. Without a root the layout is empty. It fails only when a
    /// column or row would not fit in 128 bits.
    pub fn calculate_layout(app: &AppState) -> (r: Option<LayoutEngine>)
        requires
            tree_wf(app.tree_view()),
            app.root_id matches Some(root) ==> app.tree_view().contains_key(root),
        ensures
            app.root_id is None ==> (r matches Some(l) && l.nodes@.len() == 0 && l.map_width == 0
                && l.map_height == 0),
            r matches Some(l) ==> {
                &&& app.root_id matches Some(root) ==> {
                    &&& geoms(l.nodes@) == layout_of(app.tree_view(), root, app.config, 1, 0)
                    &&& l.map_width == rightmost(geoms(l.nodes@))
                    &&& l.map_height == node_height(app.tree_view(), root, app.config)
                }
                &&& forall|i: int| 0 <= i < l.nodes@.len() ==> (#[trigger] l.nodes@[i]).points_ok()
                &&& l.map_top == 0
                &&& l.map_bottom == l.map_height
            },
            app.root_id matches Some(root) ==> (1 + x_extent(app.tree_view(), root, app.config) <= u128::MAX
                && node_height(app.tree_view(), root, app.config) <= u128::MAX ==> r is Some),
    {
        match app.root_id {
            Some(root_id) => {
                let mut nodes: Vec<LayoutNode> = Vec::new();
                match place(&app.tree, root_id, &app.config, LEFT_PADDING, 0, &mut nodes) {
                    Some(h) => {
                        proof {
                            assert(geoms(nodes@) =~= layout_of(app.tree_view(), root_id, app.config, 1, 0));
                        }
                        let width = right_edge(&nodes);
                        Some(LayoutEngine { nodes, map_width: width, map_height: h, map_top: 0, map_bottom: h })
                    },
                    None => None,
                }
            },
            None => Some(LayoutEngine::new()),
        }
    }
}

/// The rightmost column the nodes reach.
fn right_edge(nodes: &Vec<LayoutNode>) -> (r: u128)
    requires
        forall|i: int| 0 <= i < nodes@.len() ==> (#[trigger] nodes@[i]).points_ok(),
    ensures
        r == rightmost(geoms(nodes@)),
{
    let ghost g = geoms(nodes@);
    let mut r: u128 = 0;
    let mut i: usize = 0;
    while i < nodes.len()
        invariant
            0 <= i <= nodes@.len(),
            g == geoms(nodes@),
            forall|j: int| 0 <= j < nodes@.len() ==> (#[trigger] nodes@[j]).points_ok(),
            r == rightmost(g.take(i as int)),
        decreases nodes@.len() - i,
    {
        let e = nodes[i].exit_point.0;
        proof {
            assert(g.take(i + 1).drop_last() =~= g.take(i as int));
            assert(g.take(i + 1).last() == nodes@[i as int].geom());
            assert(nodes@[i as int].points_ok());
        }
        if e > r {
            r = e;
        }
        i = i + 1;
    }
    proof {
        assert(g.take(nodes@.len() as int) =~= g);
    }
    r
}

/// Every place stays below 2^40 columns and rows, so that distances between
/// them are computed exactly.
pub open spec fn small(g: Seq<NodeGeom>) -> bool {
    forall|i: int|
        0 <= i < g.len() ==> (#[trigger] g[i]).1 + g[i].3 < 0x100_0000_0000 && g[i].2 + g[i].6 + g[i].5
            < 0x100_0000_0000
}

/// The places of the map of `app` (none without a root).
pub open spec fn app_layout(app: AppState) -> Seq<NodeGeom> {
    match app.root_id {
        Some(r) => layout_of(app.tree_view(), r, app.config, 1, 0),
        None => Seq::empty(),
    }
}

/// The layout of `app` can be computed and is small (see [`small`]).
pub open spec fn layout_ready(app: AppState) -> bool {
    &&& app.root_id matches Some(r) ==> 1 + x_extent(app.tree_view(), r, app.config) <= u128::MAX
        && node_height(app.tree_view(), r, app.config) <= u128::MAX
    &&& small(app_layout(app))
}

/// Whether every place of the layout is small.
pub fn is_small(l: &LayoutEngine) -> (b: bool)
    ensures
        b == small(geoms(l.nodes@)),
{
    let ghost g = geoms(l.nodes@);
    let mut i: usize = 0;
    while i < l.nodes.len()
        invariant
            0 <= i <= l.nodes@.len(),
            g == geoms(l.nodes@),
            forall|j: int|
                0 <= j < i ==> (#[trigger] g[j]).1 + g[j].3 < 0x100_0000_0000 && g[j].2 + g[j].6 + g[j].5
                    < 0x100_0000_0000,
        decreases l.nodes@.len() - i,
    {
        let n = &l.nodes[i];
        proof {
            assert(g[i as int] == n.geom());
        }
        if n.x >= 0x100_0000_0000 || n.w >= 0x100_0000_0000 - n.x {
            return false;
        }
        if n.y >= 0x100_0000_0000 || n.yo >= 0x100_0000_0000 - n.y || n.lh >= 0x100_0000_0000 - n.y - n.yo {
            return false;
        }
        i = i + 1;
    }
    true
}

/// A member of a small layout is small.
pub proof fn lemma_small_member(g: Seq<NodeGeom>, v: Seq<LayoutNode>, n: LayoutNode)
    requires
        g == geoms(v),
        small(g),
        v.contains(n),
    ensures
        n.x + n.w < 0x100_0000_0000,
        n.y + n.yo + n.lh < 0x100_0000_0000,
{
    let i = choose|i: int| 0 <= i < v.len() && v[i] == n;
    assert(g[i] == n.geom());
}

} // verus!
