//! Properties of the library as a whole: what saving and reading back
//! keeps, what undo gives back, and which edits undo one another.
use crate::actions::formatting::{marker, toggled_hidden, toggled_symbol};
use crate::app::{pushed_history, pushed_index, says, AppState};
use crate::actions::dispatch::{action_effect, Action, Outcome};
use crate::config::AppConfig;
use crate::actions::formatting::{count_of, star_count, with_stars, without_stars};
use crate::actions::html::{html_children, html_node};
use crate::actions::movement::{beyond, best_child, center_row2, gap, lemma_best_child, lemma_best_sibling, placed_other, row_of, vertical_move};
use crate::layout::{app_layout, lookup};
use crate::ui::text::{display_width, words, wrap_text, wrap_words};
use crate::layout::{child_column, layout_of, lemma_layout_shape, node_height, node_size, placed_under, shown_children, NodeGeom};
use crate::actions::file::{written_as_saved, WriteKind, WriteRequest};
use crate::model::{hidden_marker, starts_with};
use crate::outline::{children_outline, outline, outline_line, render, subtree_text, OutlineEntry};
use crate::text::{char_index, is_boundary, lemma_byte_len_take, lemma_char_index, lemma_prefix_bytes, utf8_len};
use crate::actions::node::{next_sibling, previous_sibling};
use crate::actions::view::with_collapsed;
use crate::tree::{after_detach, after_insert_after, after_insert_before, lemma_index_of, parent_of, tree_rank, tree_wf, TreeView};
use indextree::NodeId;
use crate::parser::{clean_line, entries_of, entry_children, entry_parent, has_marker, holds_entries, line_entry, lines_of, parse_root, parsed_as, parsed_entries, split_newlines, strip_cr};
use crate::readback::{block_end, lemma_block_end, lemma_block_outline, lemma_children_same_range, lemma_parent_last, parsed_block, tab_entries};
use crate::text::{byte_len, is_ws, lead_ws, lemma_lead_ws, lemma_trail_ws, repeat_char, trail_ws, trim, trim_start};
use vstd::prelude::*;

verus! {

// ---------------------------------------------------------------------------
// Saving and reading back
// ---------------------------------------------------------------------------

/// A title that reads back as it was written: not empty, without white
/// space at either end, without newlines, tabs or bullets ('•'), and not
/// starting with a list marker.
pub open spec fn plain_title(t: Seq<char>) -> bool {
    &&& t.len() > 0
    &&& !is_ws(t[0])
    &&& !is_ws(t.last())
    &&& forall|i: int| 0 <= i < t.len() ==> #[trigger] t[i] != '\n' && t[i] != '\t' && t[i] != '•'
    &&& !has_marker(t)
}

/// The entry that reading a saved line gives: two columns of indentation
/// per level, and the title.
pub open spec fn read_back(e: OutlineEntry) -> (nat, Seq<char>) {
    ((2 * e.0) as nat, e.1.0)
}

/// A line of a saved outline without its newline.
pub open spec fn line_body(e: OutlineEntry) -> Seq<char> {
    repeat_char('\t', e.0) + e.1.0
}

proof fn lemma_split_append(s: Seq<char>, w: Seq<char>)
    requires
        forall|i: int| 0 <= i < w.len() ==> #[trigger] w[i] != '\n',
    ensures
        split_newlines(s + w) == split_newlines(s).update(
            split_newlines(s).len() - 1,
            split_newlines(s).last() + w,
        ),
    decreases w.len(),
{
    crate::parser::lemma_split_nonempty(s);
    let p = split_newlines(s);
    if w.len() == 0 {
        assert(s + w =~= s);
        assert(p.last() + w =~= p.last());
        assert(p.update(p.len() - 1, p.last()) =~= p);
    } else {
        let w1 = w.drop_last();
        lemma_split_append(s, w1);
        assert((s + w).drop_last() =~= s + w1);
        assert((s + w).last() == w.last());
        assert(w[w.len() - 1] != '\n');
        let q = split_newlines(s + w1);
        assert(q == p.update(p.len() - 1, p.last() + w1));
        assert(q.last() == p.last() + w1);
        assert(split_newlines(s + w) == q.update(q.len() - 1, q.last().push(w.last())));
        assert(q.last().push(w.last()) =~= p.last() + w);
        assert(split_newlines(s + w) =~= p.update(p.len() - 1, p.last() + w));
    }
}

proof fn lemma_split_render(o: Seq<OutlineEntry>)
    requires
        forall|i: int| 0 <= i < o.len() ==> plain_title(#[trigger] o[i].1.0),
    ensures
        split_newlines(render(o)) == o.map_values(|e: OutlineEntry| line_body(e)).push(Seq::<char>::empty()),
    decreases o.len(),
{
    if o.len() == 0 {
        assert(render(o) =~= Seq::<char>::empty());
        assert(split_newlines(Seq::<char>::empty()) == seq![Seq::<char>::empty()]);
        assert(o.map_values(|e: OutlineEntry| line_body(e)).push(Seq::<char>::empty()) =~= seq![
            Seq::<char>::empty(),
        ]);
    } else {
        let o1 = o.drop_last();
        let e = o.last();
        assert forall|i: int| 0 <= i < o1.len() implies plain_title(#[trigger] o1[i].1.0) by {
            assert(o1[i] == o[i]);
        }
        lemma_split_render(o1);
        let s = render(o1);
        let w = line_body(e);
        assert(plain_title(o[o.len() - 1].1.0));
        assert forall|i: int| 0 <= i < w.len() implies #[trigger] w[i] != '\n' by {
            if i >= e.0 {
                assert(w[i] == e.1.0[i - e.0]);
            }
        }
        lemma_split_append(s, w);
        let l1 = o1.map_values(|e: OutlineEntry| line_body(e));
        assert(split_newlines(s) == l1.push(Seq::<char>::empty()));
        assert(split_newlines(s + w) =~= l1.push(w));
        assert(render(o) == s + outline_line(e));
        assert(outline_line(e) =~= w.push('\n'));
        assert(render(o) =~= (s + w).push('\n'));
        assert((s + w).push('\n').drop_last() =~= s + w);
        assert(split_newlines(render(o)) == split_newlines(s + w).push(Seq::<char>::empty()));
        assert(o.map_values(|e: OutlineEntry| line_body(e)) =~= l1.push(w));
    }
}

proof fn lemma_lines_render(o: Seq<OutlineEntry>)
    requires
        forall|i: int| 0 <= i < o.len() ==> plain_title(#[trigger] o[i].1.0),
    ensures
        lines_of(render(o)) == o.map_values(|e: OutlineEntry| line_body(e)),
{
    lemma_split_render(o);
    let l = o.map_values(|e: OutlineEntry| line_body(e));
    let p = split_newlines(render(o));
    assert(p.drop_last() =~= l);
    assert forall|i: int| 0 <= i < l.len() implies strip_cr(#[trigger] l[i]) == l[i] by {
        let e = o[i];
        assert(plain_title(e.1.0));
        let w = line_body(e);
        assert(w.last() == e.1.0.last());
        assert(is_ws('\r'));
    }
    assert(l.map_values(|x: Seq<char>| strip_cr(x)) =~= l);
}

proof fn lemma_clean_append(a: Seq<char>, b: Seq<char>)
    ensures
        clean_line(a + b) == clean_line(a) + clean_line(b),
    decreases b.len(),
{
    if b.len() == 0 {
        assert(a + b =~= a);
        assert(clean_line(a) + clean_line(b) =~= clean_line(a));
    } else {
        lemma_clean_append(a, b.drop_last());
        assert((a + b).drop_last() =~= a + b.drop_last());
        assert((a + b).last() == b.last());
        let r = clean_line(b.drop_last());
        if b.last() == '\t' {
            assert(clean_line(a) + (r + seq![' ', ' ']) =~= (clean_line(a) + r) + seq![' ', ' ']);
        } else if b.last() == '•' {
            assert(clean_line(a) + r.push('*') =~= (clean_line(a) + r).push('*'));
        } else {
            assert(clean_line(a) + r.push(b.last()) =~= (clean_line(a) + r).push(b.last()));
        }
    }
}

proof fn lemma_clean_tabs(n: nat)
    ensures
        clean_line(repeat_char('\t', n)) == repeat_char(' ', 2 * n),
    decreases n,
{
    if n > 0 {
        lemma_clean_tabs((n - 1) as nat);
        let s = repeat_char('\t', n);
        assert(s.drop_last() =~= repeat_char('\t', (n - 1) as nat));
        assert(s.last() == '\t');
        assert(repeat_char(' ', 2 * ((n - 1) as nat)) + seq![' ', ' '] =~= repeat_char(' ', 2 * n));
    } else {
        assert(repeat_char('\t', 0) =~= Seq::<char>::empty());
        assert(repeat_char(' ', 0) =~= Seq::<char>::empty());
    }
}

proof fn lemma_clean_plain(t: Seq<char>)
    requires
        forall|i: int| 0 <= i < t.len() ==> #[trigger] t[i] != '\t' && t[i] != '•',
    ensures
        clean_line(t) == t,
    decreases t.len(),
{
    if t.len() > 0 {
        let t1 = t.drop_last();
        assert forall|i: int| 0 <= i < t1.len() implies #[trigger] t1[i] != '\t' && t1[i] != '•' by {
            assert(t1[i] == t[i]);
        }
        lemma_clean_plain(t1);
        assert(t[t.len() - 1] != '\t' && t[t.len() - 1] != '•');
        assert(t1.push(t.last()) =~= t);
    }
}

proof fn lemma_spaces_bytes(n: nat)
    ensures
        byte_len(repeat_char(' ', n)) == n,
    decreases n,
{
    if n > 0 {
        lemma_spaces_bytes((n - 1) as nat);
        assert(repeat_char(' ', n).drop_last() =~= repeat_char(' ', (n - 1) as nat));
    } else {
        assert(repeat_char(' ', 0) =~= Seq::<char>::empty());
    }
}

proof fn lemma_line_entry(e: OutlineEntry)
    requires
        plain_title(e.1.0),
    ensures
        line_entry(line_body(e)) == Some(read_back(e)),
{
    let t = e.1.0;
    let n = (2 * e.0) as nat;
    lemma_clean_append(repeat_char('\t', e.0), t);
    lemma_clean_tabs(e.0);
    assert forall|i: int| 0 <= i < t.len() implies #[trigger] t[i] != '\t' && t[i] != '•' by {
        assert(t[i] != '\n' && t[i] != '\t' && t[i] != '•');
    }
    lemma_clean_plain(t);
    let c = clean_line(line_body(e));
    let sp = repeat_char(' ', n);
    assert(c == sp + t);
    assert(is_ws(' '));
    assert forall|k: int| 0 <= k < n implies is_ws(#[trigger] c[k]) by {
        assert(c[k] == ' ');
    }
    assert(c[n as int] == t[0]);
    lemma_lead_ws(c, n as int);
    assert(lead_ws(c) == n);
    assert(c.skip(n as int) =~= t);
    assert(c.take(n as int) =~= sp);
    lemma_spaces_bytes(n);
    assert(trim_start(c) =~= t);
    assert forall|k: int| t.len() <= k < t.len() implies is_ws(#[trigger] t[k]) by {
    }
    lemma_trail_ws(t, t.len() as int);
    assert(trail_ws(t) == 0);
    assert(trim(c) =~= t);
}

proof fn lemma_entries_of_lines(o: Seq<OutlineEntry>)
    requires
        forall|i: int| 0 <= i < o.len() ==> plain_title(#[trigger] o[i].1.0),
    ensures
        entries_of(o.map_values(|e: OutlineEntry| line_body(e))) == o.map_values(|e: OutlineEntry| read_back(e)),
    decreases o.len(),
{
    if o.len() > 0 {
        let o1 = o.drop_last();
        assert forall|i: int| 0 <= i < o1.len() implies plain_title(#[trigger] o1[i].1.0) by {
            assert(o1[i] == o[i]);
        }
        lemma_entries_of_lines(o1);
        assert(plain_title(o[o.len() - 1].1.0));
        lemma_line_entry(o.last());
        let l = o.map_values(|e: OutlineEntry| line_body(e));
        assert(l.drop_last() =~= o1.map_values(|e: OutlineEntry| line_body(e)));
        assert(l.last() == line_body(o.last()));
        assert(o.map_values(|e: OutlineEntry| read_back(e)) =~= o1.map_values(|e: OutlineEntry| read_back(e)).push(
            read_back(o.last()),
        ));
    } else {
        assert(o.map_values(|e: OutlineEntry| line_body(e)) =~= Seq::<Seq<char>>::empty());
        assert(o.map_values(|e: OutlineEntry| read_back(e)) =~= Seq::<(nat, Seq<char>)>::empty());
    }
}

/// Saving and reading back: the text of an outline whose titles are plain
/// (see [`plain_title`]) reads back as one entry per node, in order, each
/// with its title and an indentation of two columns per level of depth.
/// Saving writes such a text (`subtree_text` renders an outline).
pub proof fn law_saved_text_reads_back(o: Seq<OutlineEntry>)
    requires
        forall|i: int| 0 <= i < o.len() ==> plain_title(#[trigger] o[i].1.0),
    ensures
        parsed_entries(render(o)) == o.map_values(|e: OutlineEntry| read_back(e)),
{
    lemma_lines_render(o);
    lemma_entries_of_lines(o);
}

/// `s` starts at depth `d` (when it is not empty), goes no higher than
/// `d`, and goes down at most one level at a time.
pub open spec fn steps_from(s: Seq<OutlineEntry>, d: nat) -> bool {
    &&& s.len() > 0 ==> s[0].0 == d
    &&& forall|i: int| 0 <= i < s.len() ==> #[trigger] s[i].0 >= d
    &&& forall|i: int| 0 < i < s.len() ==> #[trigger] s[i].0 <= s[i - 1].0 + 1
}

proof fn lemma_steps_join(a: Seq<OutlineEntry>, b: Seq<OutlineEntry>, d: nat)
    requires
        steps_from(a, d),
        steps_from(b, d),
    ensures
        steps_from(a + b, d),
{
    let s = a + b;
    assert forall|i: int| 0 < i < s.len() implies #[trigger] s[i].0 <= s[i - 1].0 + 1 by {
        if i < a.len() {
            assert(s[i] == a[i] && s[i - 1] == a[i - 1]);
        } else if i == a.len() {
            assert(s[i] == b[0] && s[i - 1] == a[i - 1]);
        } else {
            assert(s[i] == b[i - a.len()] && s[i - 1] == b[i - 1 - a.len()]);
        }
    }
    assert forall|i: int| 0 <= i < s.len() implies #[trigger] s[i].0 >= d by {
        if i < a.len() {
            assert(s[i] == a[i]);
        } else {
            assert(s[i] == b[i - a.len()]);
        }
    }
}

/// An outline starts at its depth, and everything after the first line is
/// deeper; the levels go down one at a time.
proof fn lemma_outline_steps(t: TreeView, x: NodeId, d: nat)
    ensures
        outline(t, x, d, false).len() > 0,
        steps_from(outline(t, x, d, false), d),
        forall|i: int| 0 < i < outline(t, x, d, false).len() ==> #[trigger] outline(t, x, d, false)[i].0 >= d + 1,
    decreases tree_rank(t)[x], t[x].2.len() + 1,
{
    let c = children_outline(t, x, d + 1, false, t[x].2.len() as int);
    lemma_children_steps(t, x, d + 1, t[x].2.len() as int);
    let s = outline(t, x, d, false);
    assert(s == seq![(d, t[x].0)] + c);
    assert forall|i: int| 0 < i < s.len() implies #[trigger] s[i].0 >= d + 1 && s[i].0 <= s[i - 1].0 + 1 by {
        assert(s[i] == c[i - 1]);
        if i > 1 {
            assert(s[i - 1] == c[i - 2]);
        }
    }
}

proof fn lemma_children_steps(t: TreeView, p: NodeId, d: nat, k: int)
    ensures
        steps_from(children_outline(t, p, d, false, k), d),
    decreases tree_rank(t)[p], k,
{
    if k > 0 && k <= t[p].2.len() {
        lemma_children_steps(t, p, d, k - 1);
        let c = t[p].2[k - 1];
        if tree_rank(t)[c] < tree_rank(t)[p] {
            lemma_outline_steps(t, c, d);
            lemma_steps_join(children_outline(t, p, d, false, k - 1), outline(t, c, d, false), d);
        } else {
            assert(children_outline(t, p, d, false, k - 1) + Seq::<OutlineEntry>::empty() =~= children_outline(
                t,
                p,
                d,
                false,
                k - 1,
            ));
        }
    }
}

/// Saving a map and reading it back gives the saved map again: when the
/// titles of the subtree at `r` are plain (see [`plain_title`]), the map read
/// from its text, shown from the node that reading picks, has the same
/// outline (every node, in order, at its depth, with its title), its nodes
/// expanded and visible.
pub proof fn law_saved_map_reads_back(t: TreeView, r: NodeId, src: TreeView, root: NodeId)
    requires
        forall|i: int|
            0 <= i < outline(t, r, 0, false).len() ==> plain_title(#[trigger] outline(t, r, 0, false)[i].1.0),
        tree_wf(src),
        parsed_as(src, root, render(outline(t, r, 0, false))),
    ensures
        outline(src, root, 0, false) == outline(t, r, 0, false).map_values(
            |x: OutlineEntry| (x.0, (x.1.0, false, false)),
        ),
{
    let o = outline(t, r, 0, false);
    let n = o.len() as int;
    law_saved_text_reads_back(o);
    let e = parsed_entries(render(o));
    assert(e == o.map_values(|x: OutlineEntry| read_back(x)));
    lemma_outline_steps(t, r, 0);
    let ds = o.map_values(|x: OutlineEntry| x.0);
    assert(tab_entries(e, ds)) by {
        assert forall|k: int| 0 < k < ds.len() implies #[trigger] ds[k] >= 1 && ds[k] <= ds[k - 1] + 1 by {
            assert(o[k].0 >= 1);
            assert(o[k].0 <= o[k - 1].0 + 1);
        }
    }
    assert(e.len() > 0);
    let (top, ids) = choose|top: NodeId, ids: Seq<NodeId>|
        #[trigger] holds_entries(src, e, top, ids, e.len() as int) && root == parse_root(e, top, ids);
    // the only entry on the top level is the first one
    assert forall|i: int| 1 <= i < n implies entry_parent(e, i) != None::<int> by {
        assert(e[0].0 == 0);
        assert(e[i].0 == 2 * ds[i]);
        assert(ds[i] >= 1);
        lemma_parent_last(e, i, i);
    }
    lemma_children_same_range(e, None, 1, n);
    assert(entry_children(e, None, 0) =~= Seq::<int>::empty());
    assert(entry_parent(e, 0) == None::<int>);
    assert(entry_children(e, None, 1) =~= seq![0int]);
    assert(root == ids[0]);
    // the block of the first entry is everything
    lemma_block_end(ds, 0);
    assert(block_end(ds, 0) == n) by {
        if block_end(ds, 0) < n {
            assert(ds[block_end(ds, 0)] >= 1);
        }
    }
    lemma_block_outline(src, e, ds, top, ids, 0);
    assert(parsed_block(e, ds, 0, n) =~= o.map_values(|x: OutlineEntry| (x.0, (x.1.0, false, false))));
}

/// The text of an outline does not depend on the flags of its nodes.
proof fn lemma_render_flags(o: Seq<OutlineEntry>)
    ensures
        render(o.map_values(|x: OutlineEntry| (x.0, (x.1.0, false, false)))) == render(o),
    decreases o.len(),
{
    let c = o.map_values(|x: OutlineEntry| (x.0, (x.1.0, false, false)));
    if o.len() > 0 {
        lemma_render_flags(o.drop_last());
        assert(c.drop_last() =~= o.drop_last().map_values(|x: OutlineEntry| (x.0, (x.1.0, false, false))));
        assert(outline_line(c.last()) == outline_line(o.last()));
    }
}

/// Reading a text and saving the map again gives the text back: a text of
/// one line per node (tabs for its depth, its plain title, a newline),
/// whose first line is its only one at depth 0 and whose depth grows at
/// most one level from a line to the next, is read into a map whose saved
/// text, from the node that reading picks, is the same text.
pub proof fn law_read_text_saves_back(o: Seq<OutlineEntry>, src: TreeView, root: NodeId)
    requires
        o.len() > 0,
        o[0].0 == 0,
        forall|i: int| 0 < i < o.len() ==> #[trigger] o[i].0 >= 1 && o[i].0 <= o[i - 1].0 + 1,
        forall|i: int| 0 <= i < o.len() ==> plain_title(#[trigger] o[i].1.0),
        tree_wf(src),
        parsed_as(src, root, render(o)),
    ensures
        subtree_text(src, root, false, 0) == render(o),
{
    let n = o.len() as int;
    law_saved_text_reads_back(o);
    let e = parsed_entries(render(o));
    assert(e == o.map_values(|x: OutlineEntry| read_back(x)));
    let ds = o.map_values(|x: OutlineEntry| x.0);
    assert(tab_entries(e, ds)) by {
        assert forall|k: int| 0 < k < ds.len() implies #[trigger] ds[k] >= 1 && ds[k] <= ds[k - 1] + 1 by {
            assert(o[k].0 >= 1);
            assert(o[k].0 <= o[k - 1].0 + 1);
        }
    }
    assert(e.len() > 0);
    let (top, ids) = choose|top: NodeId, ids: Seq<NodeId>|
        #[trigger] holds_entries(src, e, top, ids, e.len() as int) && root == parse_root(e, top, ids);
    assert forall|i: int| 1 <= i < n implies entry_parent(e, i) != None::<int> by {
        assert(e[0].0 == 0);
        assert(e[i].0 == 2 * ds[i]);
        assert(ds[i] >= 1);
        lemma_parent_last(e, i, i);
    }
    lemma_children_same_range(e, None, 1, n);
    assert(entry_children(e, None, 0) =~= Seq::<int>::empty());
    assert(entry_parent(e, 0) == None::<int>);
    assert(entry_children(e, None, 1) =~= seq![0int]);
    assert(root == ids[0]);
    lemma_block_end(ds, 0);
    assert(block_end(ds, 0) == n) by {
        if block_end(ds, 0) < n {
            assert(ds[block_end(ds, 0)] >= 1);
        }
    }
    lemma_block_outline(src, e, ds, top, ids, 0);
    assert(parsed_block(e, ds, 0, n) =~= o.map_values(|x: OutlineEntry| (x.0, (x.1.0, false, false))));
    lemma_render_flags(o);
}

// ---------------------------------------------------------------------------
// Undo history
// ---------------------------------------------------------------------------

/// Recording and undoing: after the current tree is recorded (with room for
/// at least one entry), the position is above zero and the entry just below
/// it is the recorded tree, so an undo right after gives that tree back.
pub proof fn law_undo_gives_back_recorded(h: Seq<TreeView>, index: int, current: TreeView, max: int)
    requires
        0 <= index <= h.len(),
        max >= 1,
    ensures
        pushed_index(index, max) > 0,
        pushed_history(h, index, current, max)[pushed_index(index, max) - 1] == current,
{
    let grown = h.take(index).push(current);
    assert(grown.len() == index + 1);
    if grown.len() > max {
        assert(grown.drop_first()[index - 1] == grown[index]);
    }
}

/// The history stays within `max_undo_steps` entries, and the position after
/// recording is the end of the history.
pub proof fn law_history_bounded(h: Seq<TreeView>, index: int, current: TreeView, max: int)
    requires
        0 <= index <= h.len(),
        index <= max,
    ensures
        pushed_history(h, index, current, max).len() <= max,
        pushed_index(index, max) == pushed_history(h, index, current, max).len(),
{
    let grown = h.take(index).push(current);
    assert(grown.len() == index + 1);
}

// ---------------------------------------------------------------------------
// Title toggles
// ---------------------------------------------------------------------------

/// Hiding twice gives the title back, unless it carried the hidden marker
/// twice over.
pub proof fn law_hide_twice(title: Seq<char>)
    requires
        !(starts_with(title, hidden_marker()) && starts_with(title.skip(9), hidden_marker())),
    ensures
        toggled_hidden(toggled_hidden(title)) == title,
{
    let m = hidden_marker();
    if starts_with(title, m) {
        let t1 = title.skip(9);
        assert(!starts_with(t1, m));
        assert(title.subrange(0, 9) == m);
        assert(m + t1 =~= title);
    } else {
        let t1 = m + title;
        assert(t1.subrange(0, 9) =~= m);
        assert(starts_with(t1, m));
        assert(t1.skip(9) =~= title);
    }
}

/// Three symbol steps give a plain title back (none, first symbol, second
/// symbol, none), when neither marker starts the title and the second
/// marker followed by the title does not start with the first marker.
pub proof fn law_symbol_cycle(title: Seq<char>, s1: Seq<char>, s2: Seq<char>)
    requires
        !starts_with(title, marker(s1)),
        !starts_with(title, marker(s2)),
        !starts_with(marker(s2) + title, marker(s1)),
    ensures
        toggled_symbol(toggled_symbol(toggled_symbol(title, s1, s2), s1, s2), s1, s2) == title,
{
    let m1 = marker(s1);
    let m2 = marker(s2);
    let t1 = m1 + title;
    assert(t1.subrange(0, m1.len() as int) =~= m1);
    assert(toggled_symbol(title, s1, s2) == t1);
    assert(t1.skip(m1.len() as int) =~= title);
    let t2 = m2 + title;
    assert(toggled_symbol(t1, s1, s2) == t2);
    assert(t2.subrange(0, m2.len() as int) =~= m2);
    assert(t2.skip(m2.len() as int) =~= title);
}

// ---------------------------------------------------------------------------
// Editing
// ---------------------------------------------------------------------------

/// Typing a one-byte character at a boundary and then deleting backwards
/// gives the buffer back: the cursor after typing stands right behind the
/// new character, whose byte starts it, and removing it leaves the old
/// buffer, with the cursor where it was.
pub proof fn law_type_then_backspace(s: Seq<char>, b: int, c: char)
    requires
        is_boundary(s, b),
        utf8_len(c) == 1,
    ensures
        ({
            let s2 = s.insert(char_index(s, b), c);
            &&& is_boundary(s2, b)
            &&& b < byte_len(s2)
            &&& s2.remove(char_index(s2, b)) == s
        }),
{
    let k = char_index(s, b);
    let s2 = s.insert(k, c);
    assert(s2.take(k) =~= s.take(k));
    lemma_char_index(s2, k);
    assert(s2[k] == c);
    lemma_byte_len_take(s2, k);
    lemma_prefix_bytes(s2, k + 1);
    assert(s2.remove(k) =~= s);
}

// ---------------------------------------------------------------------------
// Moving nodes
// ---------------------------------------------------------------------------

/// `l` without duplicates, and `x` at position `k`, so `x`'s index is `k`.
proof fn lemma_index_at(l: Seq<NodeId>, x: NodeId, k: int)
    requires
        l.no_duplicates(),
        0 <= k < l.len(),
        l[k] == x,
    ensures
        l.index_of(x) == k,
{
    lemma_index_of(l, x);
}

/// Moving a node up among its siblings and then down again gives the tree
/// back: after the move up, the sibling that was before it is the one
/// after it, and moving it after that sibling restores every entry.
pub proof fn law_move_up_then_down(t: TreeView, a: NodeId)
    requires
        tree_wf(t),
        t.contains_key(a),
        previous_sibling(t, a) is Some,
    ensures
        ({
            let s = previous_sibling(t, a)->0;
            let t2 = after_insert_before(t, s, a);
            &&& next_sibling(t2, a) == Some(s)
            &&& after_insert_after(t2, s, a) == t
        }),
{
    crate::tree::lemma_rank_exists(t);
    let p = t[a].1->0;
    let cs = t[p].2;
    assert(cs.contains(a));
    lemma_index_of(cs, a);
    let i = cs.index_of(a);
    let s = cs[i - 1];
    assert(previous_sibling(t, a) == Some(s));
    assert(t[p].2.no_duplicates());
    assert(s != a);
    assert(t[s].1 == Some(p));
    assert(p != a) by {
        assert(tree_rank(t)[cs[i]] < tree_rank(t)[p]);
    }
    assert(p != s) by {
        assert(tree_rank(t)[cs[i - 1]] < tree_rank(t)[p]);
    }
    // moving up
    let t1 = after_detach(t, a);
    let cs1 = cs.remove(i);
    assert(t1[p].2 == cs1);
    assert(t1[s] == t[s]);
    assert(cs1.no_duplicates()) by {
        assert forall|x: int, y: int| 0 <= x < y < cs1.len() implies cs1[x] != cs1[y] by {
            let x0 = if x < i { x } else { x + 1 };
            let y0 = if y < i { y } else { y + 1 };
            assert(cs1[x] == cs[x0]);
            assert(cs1[y] == cs[y0]);
        }
    }
    assert(cs1[i - 1] == s);
    lemma_index_at(cs1, s, i - 1);
    let cs2 = cs1.insert(i - 1, a);
    let t2 = after_insert_before(t, s, a);
    assert(t2[p].2 == cs2);
    assert(t2[a] == t[a]);
    assert(t2[s] == t[s]);
    assert(cs2.no_duplicates()) by {
        assert forall|x: int, y: int| 0 <= x < y < cs2.len() implies cs2[x] != cs2[y] by {
            if x == i - 1 {
                assert(cs2[y] == cs1[y - 1]);
                assert(cs1[y - 1] == cs[if y - 1 < i { y - 1 } else { y }]);
            } else if y == i - 1 {
                assert(cs2[x] == cs1[x]);
                assert(cs1[x] == cs[x]);
            } else {
                let x1 = if x < i - 1 { x } else { x - 1 };
                let y1 = if y < i - 1 { y } else { y - 1 };
                assert(cs2[x] == cs1[x1]);
                assert(cs2[y] == cs1[y1]);
            }
        }
    }
    assert(cs2[i - 1] == a);
    assert(cs2[i] == s);
    lemma_index_at(cs2, a, i - 1);
    assert(next_sibling(t2, a) == Some(s));
    // moving down again
    let t3 = after_detach(t2, a);
    assert(cs2.remove(i - 1) =~= cs1);
    assert(t3[p].2 == cs1);
    assert(t3[s] == t[s]);
    let t4 = after_insert_after(t2, s, a);
    assert(cs1.insert(i, a) =~= cs);
    assert(t4[p] == t[p]);
    assert(t4[a] == t[a]);
    assert(t4 =~= t);
}

// ---------------------------------------------------------------------------
// View toggles
// ---------------------------------------------------------------------------

/// Toggling a node's collapsed flag twice gives the tree back.
pub proof fn law_toggle_collapse_twice(t: TreeView, a: NodeId)
    requires
        t.contains_key(a),
    ensures
        ({
            let t2 = with_collapsed(t, a, !t[a].0.1);
            with_collapsed(t2, a, !t2[a].0.1) == t
        }),
{
    let t2 = with_collapsed(t, a, !t[a].0.1);
    let t3 = with_collapsed(t2, a, !t2[a].0.1);
    assert(t3[a] == t[a]);
    assert(t3 =~= t);
}

/// One line of spacing more, then one less, gives the spacing back.
pub proof fn law_line_spacing_up_then_down(n: usize)
    requires
        n < usize::MAX,
    ensures
        ({
            let up = (n + 1) as usize;
            (if up > 0 {
                (up - 1) as usize
            } else {
                0
            }) == n
        }),
{
}

// ---------------------------------------------------------------------------
// Saving that fails
// ---------------------------------------------------------------------------

/// A save whose write fails reports the error and changes nothing else: when
/// saving asks to write the map file and taking note of the write gets the
/// error `e`, the state is the one before saving but for the message
/// "Failed to save: `e`"; the map stays unsaved under the same file name.
pub proof fn law_failed_save_only_reports(st0: AppState, st1: AppState, st2: AppState, w: WriteRequest, e: String)
    requires
        action_effect(Action::Save, st0, st1, Outcome::Write(w, WriteKind::Save)),
        written_as_saved(st1, st2, w.path@, Err(e), false),
    ensures
        says(st2.message, "Failed to save: "@ + e@),
        st2 == (AppState { message: st2.message, ..st0 }),
        st2.is_dirty == st0.is_dirty,
        st2.filename == st0.filename,
{
}

// ---------------------------------------------------------------------------
// The layout
// ---------------------------------------------------------------------------

/// Which nodes are laid out, and in which columns: the root is laid out at
/// column 1; a shown child of an expanded laid-out node is laid out seven
/// columns after that node's right edge; no other node is laid out (every
/// laid-out node but the root hangs in this way from a laid-out node). A
/// node's spine stands four columns after its right edge when it is
/// expanded with two or more shown children, and it has none otherwise.
pub proof fn law_layout_nodes_and_columns(t: TreeView, r: NodeId, cfg: AppConfig)
    requires
        tree_wf(t),
        t.contains_key(r),
    ensures
        ({
            let g = layout_of(t, r, cfg, 1, 0);
            &&& g.contains(g.last()) && g.last().0 == r && g.last().1 == 1
            &&& forall|e2: NodeGeom, c: NodeId|
                #[trigger] g.contains(e2) && #[trigger] placed_under(t, cfg, e2, c) ==> exists|e: NodeGeom|
                    #[trigger] g.contains(e) && e.0 == c && e.1 == child_column(e2)
            &&& forall|e: NodeGeom|
                #[trigger] g.contains(e) && e.0 != r ==> exists|e2: NodeGeom|
                    #[trigger] g.contains(e2) && placed_under(t, cfg, e2, e.0) && e.1 == child_column(e2)
            &&& forall|e: NodeGeom|
                #[trigger] g.contains(e) ==> (e.7 is Some <==> !t[e.0].0.1 && shown_children(t, e.0, cfg).len() >= 2)
                    && (e.7 matches Some(s) ==> s == e.1 + e.3 + 4)
        }),
{
    lemma_layout_shape(t, r, cfg, 1, 0);
    let g = layout_of(t, r, cfg, 1, 0);
    assert(g[g.len() - 1] == g.last());
}

// ---------------------------------------------------------------------------
// Wrapping
// ---------------------------------------------------------------------------

/// Words joined by single spaces.
pub open spec fn joined(ws: Seq<Seq<char>>) -> Seq<char>
    decreases ws.len(),
{
    if ws.len() == 0 {
        Seq::empty()
    } else if ws.len() == 1 {
        ws[0]
    } else {
        joined(ws.drop_last()) + seq![' '] + ws.last()
    }
}

/// The columns of words joined by single spaces, word by word: their
/// widths and one column per space.
pub open spec fn words_width(ws: Seq<Seq<char>>) -> nat
    decreases ws.len(),
{
    if ws.len() == 0 {
        0
    } else if ws.len() == 1 {
        display_width(ws[0])
    } else {
        words_width(ws.drop_last()) + 1 + display_width(ws.last())
    }
}

/// The words of the groups `gs`, one group after the other.
pub open spec fn flatten(gs: Seq<Seq<Seq<char>>>) -> Seq<Seq<char>>
    decreases gs.len(),
{
    if gs.len() == 0 {
        Seq::empty()
    } else {
        flatten(gs.drop_last()) + gs.last()
    }
}

/// Groups of words that make good lines for `max` columns: none is empty;
/// each fits in `max` columns unless it is a single word; and each is full:
/// the next group's first word would not have fitted after it.
pub open spec fn good_groups(gs: Seq<Seq<Seq<char>>>, max: nat) -> bool {
    &&& forall|i: int| 0 <= i < gs.len() ==> (#[trigger] gs[i]).len() > 0
    &&& forall|i: int| 0 <= i < gs.len() ==> words_width(#[trigger] gs[i]) <= max || gs[i].len() == 1
    &&& forall|i: int|
        0 <= i < gs.len() - 1 ==> words_width(#[trigger] gs[i]) + 1 + display_width(gs[i + 1][0]) > max
}

proof fn lemma_joined_push(ws: Seq<Seq<char>>, w: Seq<char>)
    requires
        ws.len() > 0,
    ensures
        joined(ws.push(w)) == joined(ws) + seq![' '] + w,
        words_width(ws.push(w)) == words_width(ws) + 1 + display_width(w),
{
    assert(ws.push(w).drop_last() =~= ws);
}

proof fn lemma_joined_concat(a: Seq<Seq<char>>, b: Seq<Seq<char>>)
    requires
        a.len() > 0,
        b.len() > 0,
    ensures
        joined(a + b) == joined(a) + seq![' '] + joined(b),
    decreases b.len(),
{
    if b.len() == 1 {
        assert(a + b =~= a.push(b[0]));
        lemma_joined_push(a, b[0]);
    } else {
        let b0 = b.drop_last();
        lemma_joined_concat(a, b0);
        assert(a + b =~= (a + b0).push(b.last()));
        lemma_joined_push(a + b0, b.last());
        lemma_joined_push(b0, b.last());
        assert(b0.push(b.last()) =~= b);
    }
}

/// Joining the lines of the groups gives the joined words.
proof fn lemma_joined_groups(gs: Seq<Seq<Seq<char>>>)
    requires
        forall|i: int| 0 <= i < gs.len() ==> (#[trigger] gs[i]).len() > 0,
    ensures
        joined(gs.map_values(|g: Seq<Seq<char>>| joined(g))) == joined(flatten(gs)),
        gs.len() > 0 ==> flatten(gs).len() > 0,
    decreases gs.len(),
{
    if gs.len() > 0 {
        let g0 = gs.drop_last();
        lemma_joined_groups(g0);
        let m = gs.map_values(|g: Seq<Seq<char>>| joined(g));
        assert(m.drop_last() =~= g0.map_values(|g: Seq<Seq<char>>| joined(g)));
        assert(gs.last() == gs[gs.len() - 1]);
        if g0.len() == 0 {
            assert(flatten(gs) =~= gs.last());
        } else {
            assert(g0[g0.len() - 1] == gs[g0.len() - 1]);
            lemma_joined_concat(flatten(g0), gs.last());
        }
    }
}

/// The words of a text are not empty.
proof fn lemma_words_nonempty(s: Seq<char>)
    ensures
        forall|i: int| 0 <= i < words(s).len() ==> (#[trigger] words(s)[i]).len() > 0,
    decreases s.len(),
{
    if s.len() > 0 {
        lemma_words_nonempty(s.drop_last());
        let w = words(s.drop_last());
        let c = s.last();
        if is_ws(c) {
        } else if s.len() >= 2 && !is_ws(s[s.len() - 2]) {
            lemma_words_end(s.drop_last());
            assert(words(s) == w.update(w.len() - 1, w.last().push(c)));
            assert forall|i: int| 0 <= i < words(s).len() implies (#[trigger] words(s)[i]).len() > 0 by {
                if i < w.len() - 1 {
                    assert(words(s)[i] == w[i]);
                } else {
                    let x = w.last().push(c);
                    assert(words(s).len() == w.len());
                    assert(i == w.len() - 1);
                    assert(w.update(w.len() - 1, x)[i] == x);
                }
            }
        } else {
            assert forall|i: int| 0 <= i < words(s).len() implies (#[trigger] words(s)[i]).len() > 0 by {
                if i < w.len() {
                    assert(words(s)[i] == w[i]);
                }
            }
        }
    }
}

/// A text that ends with a character other than white space has a word.
proof fn lemma_words_end(t: Seq<char>)
    requires
        t.len() > 0,
        !is_ws(t.last()),
    ensures
        words(t).len() > 0,
    decreases t.len(),
{
    if t.len() >= 2 && !is_ws(t[t.len() - 2]) {
        lemma_words_end(t.drop_last());
    }
}

/// Joined words end with the last word.
proof fn lemma_joined_ends(ws: Seq<Seq<char>>)
    requires
        ws.len() > 0,
    ensures
        joined(ws).len() >= ws.last().len(),
{
    if ws.len() == 1 {
        assert(ws[0] == ws.last());
    }
}

/// Wrapping the words `ws` (each at least one column wide) groups them into
/// good groups (see [`good_groups`]): the finished lines and the current
/// line are the joined groups, and the width kept for the current line is
/// its group's width.
proof fn lemma_wrap_groups(ws: Seq<Seq<char>>, max: nat) -> (r: (Seq<Seq<Seq<char>>>, Seq<Seq<char>>))
    requires
        forall|i: int| 0 <= i < ws.len() ==> display_width(#[trigger] ws[i]) >= 1 && ws[i].len() > 0,
    ensures
        ({
            let st = wrap_words(ws, max);
            let (gs, cur) = r;
            &&& st.0 == gs.map_values(|g: Seq<Seq<char>>| joined(g))
            &&& st.1 == joined(cur)
            &&& st.2 == words_width(cur)
            &&& flatten(gs) + cur == ws
            &&& (ws.len() > 0 <==> cur.len() > 0)
            &&& good_groups(gs.push(cur), max) || cur.len() == 0
            &&& cur.len() == 0 ==> gs.len() == 0
        }),
    decreases ws.len(),
{
    if ws.len() == 0 {
        let gs = Seq::<Seq<Seq<char>>>::empty();
        let cur = Seq::<Seq<char>>::empty();
        assert(gs.map_values(|g: Seq<Seq<char>>| joined(g)) =~= Seq::<Seq<char>>::empty());
        assert(flatten(gs) + cur =~= ws);
        (gs, cur)
    } else {
        let w0 = ws.drop_last();
        let w = ws.last();
        let (gs0, cur0) = lemma_wrap_groups(w0, max);
        let st0 = wrap_words(w0, max);
        let ww = display_width(w);
        assert(ws.drop_last() == w0);
        assert(display_width(ws[ws.len() - 1]) >= 1);
        // the current line is empty exactly when its group is
        if cur0.len() > 0 {
            assert(cur0.last() == w0.last()) by {
                assert((flatten(gs0) + cur0)[w0.len() - 1] == cur0[cur0.len() - 1]);
            }
            assert(w0[w0.len() - 1].len() > 0);
            lemma_joined_ends(cur0);
        } else {
            assert(joined(cur0) =~= Seq::<char>::empty());
            assert(st0.1.len() == 0);
        }
        assert(cur0.len() > 0 <==> st0.1.len() > 0);
        if st0.2 > 0 && st0.2 + 1 + ww > max {
            let gs = gs0.push(cur0);
            let cur = seq![w];
            assert(gs.map_values(|g: Seq<Seq<char>>| joined(g)) =~= gs0.map_values(|g: Seq<Seq<char>>| joined(g)).push(joined(cur0)));
            assert(gs.drop_last() =~= gs0);
            assert(flatten(gs) == flatten(gs0) + cur0);
            assert(flatten(gs) + cur =~= ws);
            let all = gs.push(cur);
            assert(cur0.len() > 0);
            assert forall|i: int| 0 <= i < all.len() implies (#[trigger] all[i]).len() > 0 by {
                if i < gs0.len() {
                    assert(all[i] == gs0.push(cur0)[i]);
                }
            }
            assert forall|i: int| 0 <= i < all.len() implies words_width(#[trigger] all[i]) <= max || all[i].len() == 1 by {
                if i < gs0.len() + 1 {
                    assert(all[i] == gs0.push(cur0)[i]);
                }
            }
            assert forall|i: int| 0 <= i < all.len() - 1 implies words_width(#[trigger] all[i]) + 1 + display_width(all[i + 1][0]) > max by {
                if i < gs0.len() {
                    assert(all[i] == gs0.push(cur0)[i]);
                    assert(all[i + 1] == gs0.push(cur0)[i + 1]);
                } else {
                    assert(all[i] == cur0);
                    assert(all[i + 1] == cur);
                }
            }
            (gs, cur)
        } else if st0.1.len() > 0 {
            let gs = gs0;
            let cur = cur0.push(w);
            assert(cur0.len() > 0);
            lemma_joined_push(cur0, w);
            assert(ws =~= w0.push(w));
            assert(flatten(gs) + cur =~= (flatten(gs0) + cur0).push(w));
            // the current line is not empty, so it is at least one column wide
            assert(cur0.last() == w0.last()) by {
                assert((flatten(gs0) + cur0)[w0.len() - 1] == cur0[cur0.len() - 1]);
            }
            assert(words_width(cur0) >= 1) by {
                assert(display_width(w0[w0.len() - 1]) >= 1);
                if cur0.len() > 1 {
                } else {
                    assert(cur0[0] == cur0.last());
                }
            }
            let all = gs.push(cur);
            let all0 = gs0.push(cur0);
            assert forall|i: int| 0 <= i < all.len() implies (#[trigger] all[i]).len() > 0 by {
                if i < gs0.len() {
                    assert(all[i] == all0[i]);
                }
            }
            assert forall|i: int| 0 <= i < all.len() implies words_width(#[trigger] all[i]) <= max || all[i].len() == 1 by {
                if i < gs0.len() {
                    assert(all[i] == all0[i]);
                }
            }
            assert forall|i: int| 0 <= i < all.len() - 1 implies words_width(#[trigger] all[i]) + 1 + display_width(all[i + 1][0]) > max by {
                assert(all[i] == all0[i]);
                if i + 1 < gs0.len() {
                    assert(all[i + 1] == all0[i + 1]);
                } else {
                    assert(all[i + 1] == cur);
                    assert(all0[i + 1] == cur0);
                    assert(cur[0] == cur0[0]);
                }
            }
            (gs, cur)
        } else {
            assert(cur0.len() == 0);
            let gs = gs0;
            let cur = seq![w];
            assert(gs0.len() == 0);
            assert(gs.map_values(|g: Seq<Seq<char>>| joined(g)) =~= Seq::<Seq<char>>::empty());
            assert(st0.1 =~= Seq::<char>::empty());
            assert(flatten(gs) + cur =~= ws);
            let all = gs.push(cur);
            assert(all[0] == cur);
            (gs, cur)
        }
    }
}

/// Wrapping keeps the words and makes good lines: when the text has words,
/// each at least one column wide, its lines are the joined groups of some
/// good groups of its words (see [`good_groups`]), in order, and joined by
/// single spaces they give its words joined by single spaces.
pub proof fn law_wrap_keeps_words(text: Seq<char>, max: nat)
    requires
        words(text).len() > 0,
        forall|i: int| 0 <= i < words(text).len() ==> display_width(#[trigger] words(text)[i]) >= 1,
    ensures
        exists|gs: Seq<Seq<Seq<char>>>|
            #[trigger] good_groups(gs, max) && flatten(gs) == words(text) && wrap_text(text, max)
                == gs.map_values(|g: Seq<Seq<char>>| joined(g)),
        joined(wrap_text(text, max)) == joined(words(text)),
{
    let ws = words(text);
    lemma_words_nonempty(text);
    let (gs0, cur) = lemma_wrap_groups(ws, max);
    let gs = gs0.push(cur);
    let st = wrap_words(ws, max);
    assert(cur.len() > 0);
    assert(gs.drop_last() =~= gs0);
    assert(flatten(gs) == ws);
    assert(gs.map_values(|g: Seq<Seq<char>>| joined(g)) =~= st.0.push(st.1));
    // the current line is not empty
    assert(cur.last() == ws.last()) by {
        assert((flatten(gs0) + cur)[ws.len() - 1] == cur[cur.len() - 1]);
    }
    assert(ws[ws.len() - 1].len() > 0);
    assert(st.1.len() > 0) by {
        if cur.len() == 1 {
            assert(cur[0] == cur.last());
        } else {
            lemma_joined_push(cur.drop_last(), cur.last());
            assert(cur.drop_last().push(cur.last()) =~= cur);
        }
    }
    assert(wrap_text(text, max) == st.0.push(st.1));
    assert(good_groups(gs, max));
    lemma_joined_groups(gs);
}

// ---------------------------------------------------------------------------
// Moving between nodes
// ---------------------------------------------------------------------------

/// Moving up (`up`) or down goes to the nearest sibling first: when the
/// active node `a` has a place and a sibling placed above (below) its text
/// row, the node moved to is such a sibling, and no sibling of `a` has its
/// text row strictly between the new node's row and `a`'s.
pub proof fn law_move_to_nearest_sibling(app: AppState, a: NodeId, p: NodeId, up: bool, r: Option<NodeId>)
    requires
        vertical_move(app, a, up, r),
        parent_of(app.tree_view(), a) == Some(p),
        lookup(app_layout(app), a) is Some,
        exists|j: int|
            0 <= j < app.tree_view()[p].2.len() && placed_other(app_layout(app), a, #[trigger] app.tree_view()[p].2[j])
                && beyond(row_of(app_layout(app), app.tree_view()[p].2[j]), row_of(app_layout(app), a), up),
    ensures
        r matches Some(s) && {
            let g = app_layout(app);
            let cs = app.tree_view()[p].2;
            &&& cs.contains(s)
            &&& placed_other(g, a, s)
            &&& beyond(row_of(g, s), row_of(g, a), up)
            &&& forall|j: int|
                0 <= j < cs.len() && placed_other(g, a, #[trigger] cs[j]) && beyond(row_of(g, cs[j]), row_of(g, a), up)
                    ==> !beyond(row_of(g, cs[j]), row_of(g, s), !up)
        },
{
    let g = app_layout(app);
    let cs = app.tree_view()[p].2;
    let cur = row_of(g, a);
    lemma_best_sibling(g, cs, a, cur, up, cs.len() as int);
    let j = choose|j: int| 0 <= j < cs.len() && placed_other(g, a, #[trigger] cs[j]) && beyond(row_of(g, cs[j]), cur, up);
    assert(placed_other(g, a, cs[j]));
    let q = crate::actions::movement::best_sibling(g, cs, a, cur, up, cs.len() as int)->0;
    let i = choose|i: int| 0 <= i < cs.len() && cs[i] == q.0;
    assert(cs.contains(cs[i]));
}

/// Moving right goes to the child whose centre row is nearest: the child
/// picked among the children `cs` of `a` (see `go_right`) has a place, and
/// its centre row is at least as near to `a`'s as the centre row of every
/// other child with a place.
pub proof fn law_move_right_to_nearest_child(app: AppState, a: NodeId, n: NodeId)
    requires
        lookup(app_layout(app), a) is Some,
        best_child(
            app_layout(app),
            app.tree_view()[a].2,
            center_row2(lookup(app_layout(app), a)->0),
            app.tree_view()[a].2.len() as int,
        ) matches Some(q) && q.0 == n,
    ensures
        ({
            let g = app_layout(app);
            let cs = app.tree_view()[a].2;
            let c2 = center_row2(lookup(g, a)->0);
            &&& cs.contains(n)
            &&& lookup(g, n) is Some
            &&& forall|j: int|
                0 <= j < cs.len() && lookup(g, #[trigger] cs[j]) is Some ==> gap(center_row2(lookup(g, n)->0), c2)
                    <= gap(center_row2(lookup(g, cs[j])->0), c2)
        }),
{
    let g = app_layout(app);
    let cs = app.tree_view()[a].2;
    let c2 = center_row2(lookup(g, a)->0);
    lemma_best_child(g, cs, c2, cs.len() as int);
    let i = choose|i: int| 0 <= i < cs.len() && cs[i] == n;
    assert(cs.contains(cs[i]));
}

// ---------------------------------------------------------------------------
// The web page
// ---------------------------------------------------------------------------

/// The markup of the subtrees at `cs`, the first one's first.
pub open spec fn markup_in_order(t: TreeView, cs: Seq<NodeId>) -> Seq<char>
    decreases cs.len(),
{
    if cs.len() == 0 {
        Seq::empty()
    } else {
        html_node(t, cs[0], false) + markup_in_order(t, cs.drop_first())
    }
}

proof fn lemma_markup_push(t: TreeView, cs: Seq<NodeId>, c: NodeId)
    ensures
        markup_in_order(t, cs.push(c)) == markup_in_order(t, cs) + html_node(t, c, false),
    decreases cs.len(),
{
    let h = html_node(t, c, false);
    if cs.len() == 0 {
        assert(cs.push(c).drop_first() =~= Seq::<NodeId>::empty());
        assert(cs.push(c)[0] == c);
        assert(markup_in_order(t, Seq::<NodeId>::empty()) =~= Seq::<char>::empty());
        assert(markup_in_order(t, cs.push(c).drop_first()) =~= Seq::<char>::empty());
        assert(markup_in_order(t, cs.push(c)) == h + markup_in_order(t, cs.push(c).drop_first()));
        assert(markup_in_order(t, cs.push(c)) =~= h);
        assert(markup_in_order(t, cs) + h =~= h);
    } else {
        lemma_markup_push(t, cs.drop_first(), c);
        assert(cs.push(c).drop_first() =~= cs.drop_first().push(c));
        assert(cs.push(c)[0] == cs[0]);
        let h0 = html_node(t, cs[0], false);
        let m = markup_in_order(t, cs.drop_first());
        assert(markup_in_order(t, cs.push(c)) == h0 + (m + h));
        assert(markup_in_order(t, cs) == h0 + m);
        assert(h0 + (m + h) =~= (h0 + m) + h);
    }
}

/// The children of a node are exported in the order of its children list:
/// the markup of the first `k` children of `p` is each child's markup, the
/// first child's first.
pub proof fn law_html_children_in_order(t: TreeView, p: NodeId, k: int)
    requires
        tree_wf(t),
        t.contains_key(p),
        0 <= k <= t[p].2.len(),
    ensures
        html_children(t, p, k) == markup_in_order(t, t[p].2.take(k)),
    decreases k,
{
    let cs = t[p].2;
    if k == 0 {
        assert(cs.take(0) =~= Seq::<NodeId>::empty());
    } else {
        law_html_children_in_order(t, p, k - 1);
        crate::tree::lemma_rank_exists(t);
        assert(tree_rank(t)[cs[k - 1]] < tree_rank(t)[p]);
        lemma_markup_push(t, cs.take(k - 1), cs[k - 1]);
        assert(cs.take(k) =~= cs.take(k - 1).push(cs[k - 1]));
    }
}

/// An expanded node with children is exported as a foldable section whose
/// body holds its children's markup in the order of its children list
/// (the map's root: its heading, then that markup).
pub proof fn law_html_section_in_order(t: TreeView, id: NodeId, is_root: bool)
    requires
        tree_wf(t),
        t.contains_key(id),
        !t[id].0.1,
        t[id].2.len() > 0,
    ensures
        html_node(t, id, is_root) == if is_root {
            "<div id=\"root\">"@ + t[id].0.0 + "</div>\n"@ + markup_in_order(t, t[id].2)
        } else {
            "<details>\n"@ + "<summary>"@ + t[id].0.0 + "</summary>\n"@ + markup_in_order(t, t[id].2)
                + "</details>\n"@
        },
{
    law_html_children_in_order(t, id, t[id].2.len() as int);
    assert(t[id].2.take(t[id].2.len() as int) =~= t[id].2);
}

/// Each node's text is centred in its rows: a laid-out node takes at least
/// as many rows as its text has lines, and the rows above its text number
/// the same as those below it, or one more.
pub proof fn law_layout_text_centred(t: TreeView, r: NodeId, cfg: AppConfig, x: int, y: int)
    requires
        tree_wf(t),
        t.contains_key(r),
    ensures
        forall|e: NodeGeom| #[trigger] layout_of(t, r, cfg, x, y).contains(e) ==> {
            let above = e.6 as int;
            let below = e.4 - e.5 - e.6;
            &&& e.5 <= e.4
            &&& above == below || above == below + 1
        },
{
    lemma_layout_shape(t, r, cfg, x, y);
    let g = layout_of(t, r, cfg, x, y);
    assert forall|e: NodeGeom| #[trigger] g.contains(e) implies {
        let above = e.6 as int;
        let below = e.4 - e.5 - e.6;
        &&& e.5 <= e.4
        &&& above == below || above == below + 1
    } by {
        assert(e.4 == node_height(t, e.0, cfg));
        assert(e.5 == node_size(t, e.0, cfg).1);
        assert(node_height(t, e.0, cfg) >= node_size(t, e.0, cfg).1);
    }
}

// ---------------------------------------------------------------------------
// Stars
// ---------------------------------------------------------------------------

/// `s` holds no full or empty star.
pub open spec fn star_free(s: Seq<char>) -> bool {
    forall|i: int| 0 <= i < s.len() ==> #[trigger] s[i] != '★' && s[i] != '☆'
}

proof fn lemma_without_stars_concat(a: Seq<char>, b: Seq<char>)
    ensures
        without_stars(a + b) == without_stars(a) + without_stars(b),
    decreases b.len(),
{
    if b.len() == 0 {
        assert(a + b =~= a);
        assert(without_stars(a) + without_stars(b) =~= without_stars(a));
    } else {
        lemma_without_stars_concat(a, b.drop_last());
        assert((a + b).drop_last() =~= a + b.drop_last());
        assert((a + b).last() == b.last());
        let w = without_stars(b.drop_last());
        if b.last() == '★' || b.last() == '☆' {
        } else {
            assert(without_stars(a) + w.push(b.last()) =~= (without_stars(a) + w).push(b.last()));
        }
    }
}

proof fn lemma_without_stars_free(s: Seq<char>)
    ensures
        star_free(without_stars(s)),
        star_free(s) ==> without_stars(s) == s,
    decreases s.len(),
{
    if s.len() > 0 {
        lemma_without_stars_free(s.drop_last());
        let w = without_stars(s.drop_last());
        if !(s.last() == '★' || s.last() == '☆') {
            assert forall|i: int| 0 <= i < w.push(s.last()).len() implies #[trigger] w.push(s.last())[i] != '★'
                && w.push(s.last())[i] != '☆' by {
                if i < w.len() {
                    assert(w.push(s.last())[i] == w[i]);
                }
            }
        }
        if star_free(s) {
            assert(star_free(s.drop_last())) by {
                assert forall|i: int| 0 <= i < s.drop_last().len() implies #[trigger] s.drop_last()[i] != '★'
                    && s.drop_last()[i] != '☆' by {
                    assert(s.drop_last()[i] == s[i]);
                }
            }
            assert(s[s.len() - 1] == s.last());
            assert(s.drop_last().push(s.last()) =~= s);
        }
    } else {
        assert(s =~= Seq::<char>::empty());
    }
}

proof fn lemma_without_stars_all(s: Seq<char>)
    requires
        forall|i: int| 0 <= i < s.len() ==> #[trigger] s[i] == '★' || s[i] == '☆',
    ensures
        without_stars(s) == Seq::<char>::empty(),
    decreases s.len(),
{
    if s.len() > 0 {
        assert(s[s.len() - 1] == s.last());
        assert forall|i: int| 0 <= i < s.drop_last().len() implies #[trigger] s.drop_last()[i] == '★'
            || s.drop_last()[i] == '☆' by {
            assert(s.drop_last()[i] == s[i]);
        }
        lemma_without_stars_all(s.drop_last());
    }
}

/// Where leading white space ends and trailing white space begins.
proof fn lemma_ws_ends(s: Seq<char>)
    ensures
        lead_ws(s) <= s.len(),
        lead_ws(s) < s.len() ==> !is_ws(s[lead_ws(s) as int]),
        forall|k: int| 0 <= k < lead_ws(s) ==> is_ws(#[trigger] s[k]),
        trail_ws(s) <= s.len(),
        trail_ws(s) < s.len() ==> !is_ws(s[s.len() - 1 - trail_ws(s)]),
    decreases s.len(),
{
    if s.len() > 0 {
        lemma_ws_ends(s.drop_first());
        lemma_ws_ends(s.drop_last());
        if is_ws(s[0]) {
            assert forall|k: int| 0 <= k < lead_ws(s) implies is_ws(#[trigger] s[k]) by {
                if k > 0 {
                    assert(s[k] == s.drop_first()[k - 1]);
                }
            }
            if lead_ws(s) < s.len() {
                assert(s[lead_ws(s) as int] == s.drop_first()[lead_ws(s) - 1]);
            }
        }
        if is_ws(s.last()) && trail_ws(s) < s.len() {
            assert(s[s.len() - 1 - trail_ws(s)] == s.drop_last()[s.drop_last().len() - 1 - trail_ws(s.drop_last())]);
        }
    }
}

/// Trimmed text is empty or starts and ends with a character that is not
/// white space.
proof fn lemma_trim_clean(s: Seq<char>)
    ensures
        trim(s).len() == 0 || (!is_ws(trim(s)[0]) && !is_ws(trim(s).last())),
        forall|i: int| 0 <= i < trim(s).len() ==> s.contains(#[trigger] trim(s)[i]),
{
    let u = trim_start(s);
    lemma_ws_ends(s);
    lemma_ws_ends(u);
    let t = trim(s);
    if t.len() > 0 {
        assert(t[0] == u[0]);
        assert(u[0] == s[lead_ws(s) as int]);
        assert(t.last() == u[u.len() - 1 - trail_ws(u)]);
    }
    assert forall|i: int| 0 <= i < t.len() implies s.contains(#[trigger] t[i]) by {
        assert(t[i] == s[lead_ws(s) + i]);
    }
}

/// Trimming clean text keeps it, and trims a space added after it.
proof fn lemma_trim_clean_space(u: Seq<char>)
    requires
        u.len() == 0 || (!is_ws(u[0]) && !is_ws(u.last())),
    ensures
        trim(u) == u,
        trim(u.push(' ')) == u,
{
    assert(is_ws(' '));
    let v = u.push(' ');
    if u.len() == 0 {
        lemma_lead_ws(u, 0);
        lemma_trail_ws(u, 0);
        lemma_lead_ws(v, 1);
        assert(trim_start(v) =~= Seq::<char>::empty());
        lemma_trail_ws(trim_start(v), 0);
        assert(trim(v) =~= u);
        assert(trim(u) =~= u);
    } else {
        lemma_lead_ws(u, 0);
        assert(trim_start(u) =~= u);
        lemma_trail_ws(u, u.len() as int);
        assert(trim(u) =~= u);
        assert(v[0] == u[0]);
        lemma_lead_ws(v, 0);
        assert(trim_start(v) =~= v);
        assert(v[u.len() - 1] == u.last());
        lemma_trail_ws(v, u.len() as int);
        assert(trim(v) =~= u);
    }
}

/// Changing a node's stars keeps the rest of its title: with its stars
/// taken out and trimmed, the new title is the old one with its stars taken
/// out and trimmed.
pub proof fn law_stars_keep_title(title: Seq<char>, n: nat)
    requires
        n <= 5,
    ensures
        trim(without_stars(with_stars(title, n))) == trim(without_stars(title)),
{
    let base = trim(without_stars(title));
    lemma_without_stars_free(title);
    lemma_trim_clean(without_stars(title));
    assert(star_free(base)) by {
        assert forall|i: int| 0 <= i < base.len() implies #[trigger] base[i] != '★' && base[i] != '☆' by {
            assert(without_stars(title).contains(base[i]));
            let j = choose|j: int| 0 <= j < without_stars(title).len() && without_stars(title)[j] == base[i];
        }
    }
    lemma_without_stars_free(base);
    lemma_trim_clean_space(base);
    if n > 0 {
        let stars = repeat_char('★', n) + repeat_char('☆', (5 - n) as nat);
        assert forall|i: int| 0 <= i < stars.len() implies #[trigger] stars[i] == '★' || stars[i] == '☆' by {
            if i < n {
                assert(stars[i] == repeat_char('★', n)[i]);
            } else {
                assert(stars[i] == repeat_char('☆', (5 - n) as nat)[i - n]);
            }
        }
        lemma_without_stars_all(stars);
        lemma_without_stars_free(seq![' ']);
        assert(star_free(seq![' ']));
        lemma_without_stars_concat(base + seq![' '], stars);
        lemma_without_stars_concat(base, seq![' ']);
        assert(with_stars(title, n) == base + seq![' '] + stars) by {
            assert(base + seq![' '] + repeat_char('★', n) + repeat_char('☆', (5 - n) as nat) =~= base + seq![' ']
                + stars);
        }
        assert(without_stars(with_stars(title, n)) =~= base.push(' '));
    }
}

proof fn lemma_count_concat(a: Seq<char>, b: Seq<char>, c: char)
    ensures
        count_of(a + b, c) == count_of(a, c) + count_of(b, c),
    decreases b.len(),
{
    if b.len() == 0 {
        assert(a + b =~= a);
    } else {
        lemma_count_concat(a, b.drop_last(), c);
        assert((a + b).drop_last() =~= a + b.drop_last());
        assert((a + b).last() == b.last());
    }
}

proof fn lemma_count_uniform(s: Seq<char>, d: char, c: char)
    requires
        forall|i: int| 0 <= i < s.len() ==> #[trigger] s[i] == d,
    ensures
        count_of(s, c) == if d == c {
            s.len()
        } else {
            0
        },
    decreases s.len(),
{
    if s.len() > 0 {
        assert(s[s.len() - 1] == s.last());
        assert forall|i: int| 0 <= i < s.drop_last().len() implies #[trigger] s.drop_last()[i] == d by {
            assert(s.drop_last()[i] == s[i]);
        }
        lemma_count_uniform(s.drop_last(), d, c);
    }
}

proof fn lemma_count_free(s: Seq<char>, c: char)
    requires
        star_free(s),
        c == '★' || c == '☆',
    ensures
        count_of(s, c) == 0,
    decreases s.len(),
{
    if s.len() > 0 {
        assert(s[s.len() - 1] == s.last());
        assert(star_free(s.drop_last())) by {
            assert forall|i: int| 0 <= i < s.drop_last().len() implies #[trigger] s.drop_last()[i] != '★'
                && s.drop_last()[i] != '☆' by {
                assert(s.drop_last()[i] == s[i]);
            }
        }
        lemma_count_free(s.drop_last(), c);
    }
}

/// Adding or taking away a star sets the number of full stars: the title
/// gets the old number of full stars plus `change`, kept between 0 and 5,
/// and, with any, as many empty stars as make five.
pub proof fn law_stars_counted(title: Seq<char>, change: int)
    ensures
        ({
            let n = star_count(count_of(title, '★') as int, change);
            let t2 = with_stars(title, n);
            &&& n <= 5
            &&& count_of(t2, '★') == n
            &&& count_of(t2, '☆') == if n > 0 {
                5 - n
            } else {
                0
            }
        }),
{
    let n = star_count(count_of(title, '★') as int, change);
    let base = trim(without_stars(title));
    lemma_without_stars_free(title);
    lemma_trim_clean(without_stars(title));
    assert(star_free(base)) by {
        assert forall|i: int| 0 <= i < base.len() implies #[trigger] base[i] != '★' && base[i] != '☆' by {
            assert(without_stars(title).contains(base[i]));
            let j = choose|j: int| 0 <= j < without_stars(title).len() && without_stars(title)[j] == base[i];
        }
    }
    lemma_count_free(base, '★');
    lemma_count_free(base, '☆');
    if n > 0 {
        let full = repeat_char('★', n);
        let empty = repeat_char('☆', (5 - n) as nat);
        lemma_count_uniform(seq![' '], ' ', '★');
        lemma_count_uniform(seq![' '], ' ', '☆');
        lemma_count_uniform(full, '★', '★');
        lemma_count_uniform(full, '★', '☆');
        lemma_count_uniform(empty, '☆', '★');
        lemma_count_uniform(empty, '☆', '☆');
        lemma_count_concat(base, seq![' '], '★');
        lemma_count_concat(base, seq![' '], '☆');
        lemma_count_concat(base + seq![' '], full, '★');
        lemma_count_concat(base + seq![' '], full, '☆');
        lemma_count_concat(base + seq![' '] + full, empty, '★');
        lemma_count_concat(base + seq![' '] + full, empty, '☆');
    }
}

} // verus!
