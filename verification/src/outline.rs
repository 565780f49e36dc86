//! The outline of a subtree (its nodes in pre-order, each with its depth) and
//! the tab-indented text that renders an outline. Saving, yanking and
//! exporting a map all write this text.
use crate::model::{Node, NodeView};
use crate::text::{chars_of, push_all, push_repeat, repeat_char, string_from_chars};
use crate::tree::{arena_get_data, arena_nodes, lemma_rank_exists, node_children, ranked, tree_rank, tree_wf, TreeView};
use indextree::{Arena, NodeId};
use vstd::prelude::*;

verus! {

/// One line of an outline: a depth and a node's data.
pub type OutlineEntry = (nat, NodeView);

/// The pre-order outline of the subtree at `id`, `id` at `depth`. With
/// `visible_only`, the children of collapsed nodes are left out.
pub open spec fn outline(t: TreeView, id: NodeId, depth: nat, visible_only: bool) -> Seq<OutlineEntry>
    decreases tree_rank(t)[id], t[id].2.len() + 1,
{
    seq![(depth, t[id].0)] + if visible_only && t[id].0.1 {
        Seq::empty()
    } else {
        children_outline(t, id, depth + 1, visible_only, t[id].2.len() as int)
    }
}

/// The outlines of the first `k` children of `p`, one after the other, the
/// children at `depth`.
pub open spec fn children_outline(
    t: TreeView,
    p: NodeId,
    depth: nat,
    visible_only: bool,
    k: int,
) -> Seq<OutlineEntry>
    decreases tree_rank(t)[p], k,
{
    if k <= 0 || k > t[p].2.len() {
        Seq::empty()
    } else {
        let c = t[p].2[k - 1];
        children_outline(t, p, depth, visible_only, k - 1) + if tree_rank(t)[c] < tree_rank(t)[p] {
            outline(t, c, depth, visible_only)
        } else {
            Seq::empty()
        }
    }
}

/// One line of text: `depth` tabs, the title, a newline.
pub open spec fn outline_line(e: OutlineEntry) -> Seq<char> {
    repeat_char('\t', e.0) + e.1.0 + seq!['\n']
}

/// The text of an outline: its lines, one after the other.
pub open spec fn render(o: Seq<OutlineEntry>) -> Seq<char>
    decreases o.len(),
{
    if o.len() == 0 {
        Seq::empty()
    } else {
        render(o.drop_last()) + outline_line(o.last())
    }
}

pub proof fn lemma_render_append(a: Seq<OutlineEntry>, b: Seq<OutlineEntry>)
    ensures
        render(a + b) == render(a) + render(b),
    decreases b.len(),
{
    if b.len() == 0 {
        assert(a + b =~= a);
        assert(render(b) =~= Seq::<char>::empty());
        assert(render(a) + render(b) =~= render(a));
    } else {
        lemma_render_append(a, b.drop_last());
        assert((a + b).drop_last() =~= a + b.drop_last());
        assert((a + b).last() == b.last());
        assert(render(a + b) =~= render(a) + render(b));
    }
}

pub proof fn lemma_render_one(e: OutlineEntry)
    ensures
        render(seq![e]) == outline_line(e),
{
    assert(seq![e].drop_last() =~= Seq::<OutlineEntry>::empty());
    assert(render(Seq::<OutlineEntry>::empty()) =~= Seq::<char>::empty());
    assert(render(seq![e]) =~= render(seq![e].drop_last()) + outline_line(seq![e].last()));
    assert(render(seq![e]) =~= outline_line(e));
}

/// A chain of nodes in use, each ranked below the ones before it.
pub open spec fn descending_chain(t: TreeView, s: Seq<NodeId>) -> bool {
    &&& forall|i: int| 0 <= i < s.len() ==> t.contains_key(#[trigger] s[i])
    &&& forall|i: int, j: int|
        0 <= i < j < s.len() ==> tree_rank(t)[#[trigger] s[j]] < tree_rank(t)[#[trigger] s[i]]
}

pub proof fn lemma_chain_fits(t: TreeView, s: Seq<NodeId>)
    requires
        t.dom().finite(),
        descending_chain(t, s),
    ensures
        s.len() <= t.dom().len(),
{
    assert forall|i: int, j: int| 0 <= i < s.len() && 0 <= j < s.len() && i != j implies s[i]
        != s[j] by {
        if i < j {
            assert(tree_rank(t)[s[j]] < tree_rank(t)[s[i]]);
        } else {
            assert(tree_rank(t)[s[i]] < tree_rank(t)[s[j]]);
        }
    }
    assert(s.no_duplicates());
    s.unique_seq_to_set();
    assert(s.to_set().subset_of(t.dom()));
    vstd::set_lib::lemma_len_subset(s.to_set(), t.dom());
}

/// Appends the lines of the outline of the subtree at `id` to `out`.
/// `above` are the nodes whose calls led here, and bound the depth.
fn write_outline(
    tree: &Arena<Node>,
    id: NodeId,
    depth: usize,
    visible_only: bool,
    out: &mut Vec<char>,
    Ghost(above): Ghost<Seq<NodeId>>,
)
    requires
        tree_wf(arena_nodes(*tree)),
        descending_chain(arena_nodes(*tree), above.push(id)),
        depth + arena_nodes(*tree).dom().len() <= usize::MAX + above.len(),
    ensures
        final(out)@ == old(out)@ + render(outline(arena_nodes(*tree), id, depth as nat, visible_only)),
    decreases tree_rank(arena_nodes(*tree))[id],
{
    let ghost t = arena_nodes(*tree);
    proof {
        lemma_rank_exists(t);
        lemma_chain_fits(t, above.push(id));
        assert(above.push(id)[above.len() as int] == id);
        assert(t.contains_key(id));
    }
    let node = arena_get_data(tree, id).unwrap();
    push_repeat(out, '\t', depth);
    let title = chars_of(node.title.as_str());
    push_all(out, &title);
    out.push('\n');
    proof {
        lemma_render_one((depth as nat, t[id].0));
        assert(out@ =~= old(out)@ + render(seq![(depth as nat, t[id].0)]));
    }
    if visible_only && node.is_collapsed {
        assert(outline(t, id, depth as nat, visible_only) =~= seq![(depth as nat, t[id].0)]);
        return;
    }
    let children = node_children(tree, id);
    let ghost head = seq![(depth as nat, t[id].0)];
    let mut i: usize = 0;
    while i < children.len()
        invariant
            tree_wf(t),
            t == arena_nodes(*tree),
            ranked(t, tree_rank(t)),
            t.contains_key(id),
            children@ == t[id].2,
            0 <= i <= children@.len(),
            descending_chain(t, above.push(id)),
            depth + t.dom().len() <= usize::MAX + above.len(),
            above.len() + 1 <= t.dom().len(),
            out@ == old(out)@ + render(head) + render(
                children_outline(t, id, depth as nat + 1, visible_only, i as int),
            ),
        decreases children@.len() - i,
    {
        let c = children[i];
        let ghost chain = above.push(id).push(c);
        proof {
            assert(t[id].2[i as int] == c);
            assert(tree_rank(t)[c] < tree_rank(t)[id]);
            assert forall|a: int, b: int|
                0 <= a < b < chain.len() implies tree_rank(t)[#[trigger] chain[b]] < tree_rank(t)[#[trigger] chain[a]] by {
                if b == chain.len() - 1 && a < chain.len() - 2 {
                    assert(chain[a] == above.push(id)[a]);
                    assert(above.push(id)[above.len() as int] == id);
                    assert(tree_rank(t)[id] < tree_rank(t)[chain[a]]);
                } else if b < chain.len() - 1 {
                    assert(chain[a] == above.push(id)[a]);
                    assert(chain[b] == above.push(id)[b]);
                }
            }
            assert(descending_chain(t, chain));
            lemma_chain_fits(t, chain);
            assert(chain =~= above.push(id).push(c));
        }
        write_outline(tree, c, depth + 1, visible_only, out, Ghost(above.push(id)));
        proof {
            lemma_render_append(
                children_outline(t, id, depth as nat + 1, visible_only, i as int),
                outline(t, c, depth as nat + 1, visible_only),
            );
            assert(children_outline(t, id, depth as nat + 1, visible_only, i + 1) == children_outline(
                t,
                id,
                depth as nat + 1,
                visible_only,
                i as int,
            ) + outline(t, c, depth as nat + 1, visible_only));
        }
        i = i + 1;
    }
    proof {
        lemma_render_append(
            head,
            children_outline(t, id, depth as nat + 1, visible_only, children@.len() as int),
        );
        assert(outline(t, id, depth as nat, visible_only) == head + children_outline(
            t,
            id,
            depth as nat + 1,
            visible_only,
            t[id].2.len() as int,
        ));
    }
}

/// Appends the lines of the outlines of the children of `id`, each child at `depth`.
fn write_children_outlines(
    tree: &Arena<Node>,
    id: NodeId,
    depth: usize,
    visible_only: bool,
    out: &mut Vec<char>,
)
    requires
        tree_wf(arena_nodes(*tree)),
        arena_nodes(*tree).contains_key(id),
        depth + arena_nodes(*tree).dom().len() <= usize::MAX + 1,
    ensures
        final(out)@ == old(out)@ + render(
            children_outline(arena_nodes(*tree), id, depth as nat, visible_only, arena_nodes(*tree)[id].2.len() as int),
        ),
{
    let ghost t = arena_nodes(*tree);
    proof {
        lemma_rank_exists(t);
    }
    let children = node_children(tree, id);
    let mut i: usize = 0;
    while i < children.len()
        invariant
            tree_wf(t),
            t == arena_nodes(*tree),
            ranked(t, tree_rank(t)),
            t.contains_key(id),
            children@ == t[id].2,
            0 <= i <= children@.len(),
            depth + t.dom().len() <= usize::MAX + 1,
            out@ == old(out)@ + render(children_outline(t, id, depth as nat, visible_only, i as int)),
        decreases children@.len() - i,
    {
        let c = children[i];
        proof {
            assert(t[id].2[i as int] == c);
            assert(tree_rank(t)[c] < tree_rank(t)[id]);
            assert(descending_chain(t, Seq::empty().push(id).push(c))) by {
                let ch = Seq::empty().push(id).push(c);
                assert(ch[0] == id && ch[1] == c);
            }
            lemma_chain_fits(t, Seq::empty().push(id).push(c));
        }
        write_outline(tree, c, depth, visible_only, out, Ghost(Seq::empty().push(id)));
        proof {
            lemma_render_append(
                children_outline(t, id, depth as nat, visible_only, i as int),
                outline(t, c, depth as nat, visible_only),
            );
        }
        i = i + 1;
    }
}

/// The text of a subtree: with `exclude_parent`, only its children's
/// subtrees, each at `base_indent`; otherwise the node itself at `base_indent`
/// and its descendants below it.
pub open spec fn subtree_text(t: TreeView, id: NodeId, exclude_parent: bool, base_indent: nat) -> Seq<char> {
    if exclude_parent {
        render(children_outline(t, id, base_indent, false, t[id].2.len() as int))
    } else {
        render(outline(t, id, base_indent, false))
    }
}

/// The tab-indented text of the subtree at `node_id` (see [`subtree_text`]).
pub fn map_to_list(tree: &Arena<Node>, node_id: NodeId, exclude_parent: bool, base_indent: usize) -> (text: String)
    requires
        tree_wf(arena_nodes(*tree)),
        arena_nodes(*tree).contains_key(node_id),
        base_indent + arena_nodes(*tree).dom().len() <= usize::MAX,
    ensures
        text@ == subtree_text(arena_nodes(*tree), node_id, exclude_parent, base_indent as nat),
{
    let mut out: Vec<char> = Vec::new();
    if exclude_parent {
        write_children_outlines(tree, node_id, base_indent, false, &mut out);
    } else {
        proof {
            let t = arena_nodes(*tree);
            assert(descending_chain(t, Seq::<NodeId>::empty().push(node_id))) by {
                let ch = Seq::<NodeId>::empty().push(node_id);
                assert(ch[0] == node_id);
            }
        }
        write_outline(tree, node_id, base_indent, false, &mut out, Ghost(Seq::empty()));
    }
    assert(out@ =~= subtree_text(arena_nodes(*tree), node_id, exclude_parent, base_indent as nat));
    string_from_chars(&out)
}

/// Appends the text of the visible part of the subtree at `node_id` to
/// `output`: the node at `depth`, and the subtrees of its children below it
/// unless it is collapsed.
pub fn export_text_node(tree: &Arena<Node>, node_id: NodeId, output: &mut String, depth: usize)
    requires
        tree_wf(arena_nodes(*tree)),
        arena_nodes(*tree).contains_key(node_id),
        depth + arena_nodes(*tree).dom().len() <= usize::MAX,
    ensures
        final(output)@ == old(output)@ + render(outline(arena_nodes(*tree), node_id, depth as nat, true)),
{
    let mut out: Vec<char> = chars_of(output.as_str());
    proof {
        let t = arena_nodes(*tree);
        assert(descending_chain(t, Seq::<NodeId>::empty().push(node_id))) by {
            let ch = Seq::<NodeId>::empty().push(node_id);
            assert(ch[0] == node_id);
        }
    }
    write_outline(tree, node_id, depth, true, &mut out, Ghost(Seq::empty()));
    *output = string_from_chars(&out);
}

} // verus!
