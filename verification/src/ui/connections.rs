//! The lines between a node and its children, drawn on the canvas from the
//! points where they leave a node and reach its children (screen columns
//! and rows, which may lie off the canvas; what falls off it is not drawn).
use crate::app::AppState;
use crate::layout::hidden_in;
use crate::text::{byte_len, str_byte_len};
use crate::tree::{arena_get_data, children_of, node_children, tree_wf, TreeView};
use crate::ui::canvas::{placed, BufferCanvas};
use crate::ui::constants::{connections, junction};
use indextree::NodeId;
use vstd::prelude::*;

verus! {

/// The smaller of `a` and `b`.
pub open spec fn lo(a: int, b: int) -> int {
    if a <= b {
        a
    } else {
        b
    }
}

/// The larger of `a` and `b`.
pub open spec fn hi(a: int, b: int) -> int {
    if a <= b {
        b
    } else {
        a
    }
}

/// `g` with `ch` in the cells of row `y` from column `x1` to column `x2`
/// (either way round, both included), as far as the grid reaches.
pub open spec fn row_line(g: Seq<Seq<char>>, width: int, x1: int, x2: int, y: int, ch: char) -> Seq<Seq<char>> {
    placed(g, width, lo(x1, x2), y, Seq::new((hi(x1, x2) - lo(x1, x2) + 1) as nat, |i: int| ch))
}

/// `g` with `ch` in the cells of column `x` from row `a` to row `b`, both
/// included, as far as the grid reaches.
pub open spec fn column_run(g: Seq<Seq<char>>, width: int, x: int, a: int, b: int, ch: char) -> Seq<Seq<char>> {
    Seq::new(
        g.len(),
        |r: int|
            Seq::new(
                g[r].len(),
                |c: int|
                    if a <= r <= b && c == x && c < width {
                        ch
                    } else {
                        g[r][c]
                    },
            ),
    )
}

/// `g` with `ch` in the cells of column `x` from row `y1` to row `y2`
/// (either way round, both included).
pub open spec fn column_line(g: Seq<Seq<char>>, width: int, x: int, y1: int, y2: int, ch: char) -> Seq<Seq<char>> {
    column_run(g, width, x, lo(y1, y2), hi(y1, y2), ch)
}

/// The line from a node to its children: with hidden children among them
/// it crosses a double bar.
pub open spec fn connector(single: bool, has_hidden: bool) -> Seq<char> {
    if single {
        if has_hidden {
            connections::SINGLE_HIDDEN@
        } else {
            connections::SINGLE@
        }
    } else if has_hidden {
        connections::MULTI_HIDDEN@
    } else {
        connections::MULTI@
    }
}

/// The corner or tee where the line to the `i`-th of `n` children leaves the
/// spine: a top corner for the first, a bottom corner for the last, a tee
/// for the others.
pub open spec fn spine_junction(i: int, n: int) -> char {
    if i == 0 {
        junction::TOP_CORNER
    } else if i == n - 1 {
        junction::BOTTOM_CORNER
    } else {
        junction::MIDDLE_LEFT
    }
}

/// `g` with the lines from the spine at column `sx` to the first `k` of the
/// children entered at `es`, each ending in its junction on the spine.
pub open spec fn spine_links(g: Seq<Seq<char>>, width: int, sx: int, es: Seq<(i64, i64)>, k: int) -> Seq<Seq<char>>
    decreases k,
{
    if k <= 0 {
        g
    } else {
        let p = spine_links(g, width, sx, es, k - 1);
        let e = es[k - 1];
        let p2 = row_line(p, width, sx, e.0 as int, e.1 as int, '─');
        placed(p2, width, sx, e.1 as int, seq![spine_junction(k - 1, es.len() as int)])
    }
}

/// The lines from a node that leaves at `exit` to its shown children, which
/// are entered at `es` (at least one). A space and the connector follow the
/// node. An only child on another row is reached by a vertical line two
/// columns before it, ending in a corner. Two or more children hang from
/// the spine at `spine_x` (drawn only when there is one): a horizontal line
/// from the end of the connector, measured in the connector's UTF-8 bytes,
/// to the spine, the spine from the first child's row to the last's, a tee
/// where the node's line meets it, and a line from the spine to each child.
pub open spec fn child_connections(
    g: Seq<Seq<char>>,
    width: int,
    exit: (i64, i64),
    spine_x: Option<i64>,
    es: Seq<(i64, i64)>,
    has_hidden: bool,
) -> Seq<Seq<char>> {
    let (ex, ey) = (exit.0 as int, exit.1 as int);
    let single = es.len() == 1;
    let conn = connector(single, has_hidden);
    let g1 = placed(placed(g, width, ex, ey, seq![' ']), width, ex + 1, ey, conn);
    if single {
        let (cx, cy) = (es[0].0 as int, es[0].1 as int);
        if ey != cy {
            let sx = cx - 2;
            let g2 = column_line(g1, width, sx, ey, cy, junction::VERTICAL);
            placed(
                g2,
                width,
                sx,
                cy,
                seq![
                    if cy > ey {
                        junction::BOTTOM_CORNER
                    } else {
                        junction::TOP_CORNER
                    },
                ],
            )
        } else {
            g1
        }
    } else {
        match spine_x {
            Some(s) => {
                let sx = s as int;
                let g2 = row_line(g1, width, ex + 1 + byte_len(conn), sx, ey, '─');
                let g3 = column_line(g2, width, sx, es[0].1 as int, es.last().1 as int, junction::VERTICAL);
                let g4 = placed(g3, width, sx, ey, seq![junction::MIDDLE_RIGHT]);
                spine_links(g4, width, sx, es, es.len() as int)
            },
            None => g,
        }
    }
}

/// What follows a node that leaves at `exit`: " [+]" after a collapsed node
/// with children (after a crossed line when some are hidden), the lines to
/// its shown children (see [`child_connections`]), or, when all of them are
/// hidden, a crossed line.
pub open spec fn node_connections(
    g: Seq<Seq<char>>,
    width: int,
    collapsed: bool,
    has_children: bool,
    exit: (i64, i64),
    spine_x: Option<i64>,
    es: Seq<(i64, i64)>,
    has_hidden: bool,
) -> Seq<Seq<char>> {
    if collapsed && has_children {
        placed(
            g,
            width,
            exit.0 as int,
            exit.1 as int,
            if has_hidden {
                connections::COLLAPSED_HIDDEN@
            } else {
                connections::COLLAPSED@
            },
        )
    } else if es.len() > 0 {
        child_connections(g, width, exit, spine_x, es, has_hidden)
    } else if has_hidden {
        placed(g, width, exit.0 as int, exit.1 as int, connections::HIDDEN_ONLY@)
    } else {
        g
    }
}

/// The canvas keeps its size and looks; only characters change.
pub open spec fn keeps_frame(a: BufferCanvas, b: BufferCanvas) -> bool {
    &&& b.wf()
    &&& b.width == a.width
    &&& b.height == a.height
    &&& b.styles() == a.styles()
}

/// Sets the character at column `x` of row `y`, when that lies on the canvas.
fn put(canvas: &mut BufferCanvas, x: i128, y: i128, ch: char)
    requires
        old(canvas).wf(),
    ensures
        keeps_frame(*old(canvas), *final(canvas)),
        final(canvas).chars() == placed(old(canvas).chars(), old(canvas).width as int, x as int, y as int, seq![ch]),
{
    if 0 <= x && x <= usize::MAX as i128 && 0 <= y && y <= usize::MAX as i128 {
        canvas.set_char(x as usize, y as usize, ch);
    } else {
        assert(placed(canvas.chars(), canvas.width as int, x as int, y as int, seq![ch]) =~~= canvas.chars());
    }
}

/// Writes `s` from column `x` of row `y` on, as far as the canvas reaches.
fn text_at(canvas: &mut BufferCanvas, x: i128, y: i128, s: &str)
    requires
        old(canvas).wf(),
        -0x1_0000_0000_0000_0000 <= x <= 0x1_0000_0000_0000_0000,
    ensures
        keeps_frame(*old(canvas), *final(canvas)),
        final(canvas).chars() == placed(old(canvas).chars(), old(canvas).width as int, x as int, y as int, s@),
{
    let ghost g = canvas.chars();
    let n = s.unicode_len();
    let mut i: usize = 0;
    proof {
        crate::ui::canvas::lemma_placed_nothing(g, canvas.width as int, x as int, y as int);
        assert(s@.take(0) =~= Seq::<char>::empty());
    }
    while i < n
        invariant
            0 <= i <= n,
            n == s@.len(),
            -0x1_0000_0000_0000_0000 <= x <= 0x1_0000_0000_0000_0000,
            keeps_frame(*old(canvas), *canvas),
            g == old(canvas).chars(),
            canvas.chars() == placed(g, canvas.width as int, x as int, y as int, s@.take(i as int)),
        decreases n - i,
    {
        let ch = s.get_char(i);
        put(canvas, x + i as i128, y, ch);
        i = i + 1;
        assert(canvas.chars() =~~= placed(g, canvas.width as int, x as int, y as int, s@.take(i as int)));
    }
    assert(s@.take(n as int) =~= s@);
}

/// Draws `ch` in row `y` from column `x1` to column `x2` (either way round).
fn row_line_at(canvas: &mut BufferCanvas, x1: i128, x2: i128, y: i128, ch: char)
    requires
        old(canvas).wf(),
        -0x1_0000_0000_0000_0000 <= x1 <= 0x1_0000_0000_0000_0000,
        -0x1_0000_0000_0000_0000 <= x2 <= 0x1_0000_0000_0000_0000,
    ensures
        keeps_frame(*old(canvas), *final(canvas)),
        final(canvas).chars() == row_line(old(canvas).chars(), old(canvas).width as int, x1 as int, x2 as int, y as int, ch),
{
    let ghost g = canvas.chars();
    let (a, b) = if x1 <= x2 {
        (x1, x2)
    } else {
        (x2, x1)
    };
    let mut x = a;
    proof {
        crate::ui::canvas::lemma_placed_nothing(g, canvas.width as int, a as int, y as int);
        assert(Seq::new(0, |i: int| ch) =~= Seq::<char>::empty());
    }
    while x <= b
        invariant
            a <= x <= b + 1,
            a <= b,
            -0x1_0000_0000_0000_0000 <= a,
            b <= 0x1_0000_0000_0000_0000,
            keeps_frame(*old(canvas), *canvas),
            g == old(canvas).chars(),
            canvas.chars() == placed(g, canvas.width as int, a as int, y as int, Seq::new((x - a) as nat, |i: int| ch)),
        decreases b + 1 - x,
    {
        put(canvas, x, y, ch);
        x = x + 1;
        assert(canvas.chars() =~~= placed(
            g,
            canvas.width as int,
            a as int,
            y as int,
            Seq::new((x - a) as nat, |i: int| ch),
        ));
    }
}

/// Draws `ch` in column `x` from row `y1` to row `y2` (either way round).
fn column_line_at(canvas: &mut BufferCanvas, x: i128, y1: i128, y2: i128, ch: char)
    requires
        old(canvas).wf(),
        -0x1_0000_0000_0000_0000 <= y1 <= 0x1_0000_0000_0000_0000,
        -0x1_0000_0000_0000_0000 <= y2 <= 0x1_0000_0000_0000_0000,
    ensures
        keeps_frame(*old(canvas), *final(canvas)),
        final(canvas).chars() == column_line(old(canvas).chars(), old(canvas).width as int, x as int, y1 as int, y2 as int, ch),
{
    let ghost g = canvas.chars();
    let (a, b) = if y1 <= y2 {
        (y1, y2)
    } else {
        (y2, y1)
    };
    let mut y = a;
    assert(column_run(g, canvas.width as int, x as int, a as int, a - 1, ch) =~~= g);
    while y <= b
        invariant
            a <= y <= b + 1,
            a <= b,
            -0x1_0000_0000_0000_0000 <= a,
            b <= 0x1_0000_0000_0000_0000,
            keeps_frame(*old(canvas), *canvas),
            g == old(canvas).chars(),
            canvas.chars() == column_run(g, canvas.width as int, x as int, a as int, y - 1, ch),
        decreases b + 1 - y,
    {
        put(canvas, x, y, ch);
        y = y + 1;
        assert(canvas.chars() =~~= column_run(g, canvas.width as int, x as int, a as int, y - 1, ch));
    }
}

/// Draws the lines from a node that leaves at `exit` to its shown children,
/// entered at `entries` (see [`child_connections`]).
pub fn draw_child_connections(
    canvas: &mut BufferCanvas,
    exit: (i64, i64),
    spine_x: Option<i64>,
    entries: &Vec<(i64, i64)>,
    has_hidden: bool,
)
    requires
        old(canvas).wf(),
        entries@.len() > 0,
    ensures
        keeps_frame(*old(canvas), *final(canvas)),
        final(canvas).chars() == child_connections(
            old(canvas).chars(),
            old(canvas).width as int,
            exit,
            spine_x,
            entries@,
            has_hidden,
        ),
{
    let ghost g = canvas.chars();
    let ghost w = canvas.width as int;
    let (ex, ey) = (exit.0 as i128, exit.1 as i128);
    let single = entries.len() == 1;
    let conn: &str = if single {
        if has_hidden {
            connections::SINGLE_HIDDEN
        } else {
            connections::SINGLE
        }
    } else if has_hidden {
        connections::MULTI_HIDDEN
    } else {
        connections::MULTI
    };
    if !single && spine_x.is_none() {
        return;
    }
    text_at(canvas, ex, ey, " ");
    proof {
        reveal_strlit(" ");
        assert(" "@ =~= seq![' ']);
    }
    text_at(canvas, ex + 1, ey, conn);
    if single {
        let (cx, cy) = (entries[0].0 as i128, entries[0].1 as i128);
        if ey != cy {
            let sx = cx - 2;
            column_line_at(canvas, sx, ey, cy, junction::VERTICAL);
            let corner = if cy > ey {
                junction::BOTTOM_CORNER
            } else {
                junction::TOP_CORNER
            };
            put(canvas, sx, cy, corner);
        }
    } else {
        let sx = spine_x.unwrap() as i128;
        let skip = str_byte_len(conn) as i128;
        row_line_at(canvas, ex + 1 + skip, sx, ey, '─');
        let first_y = entries[0].1 as i128;
        let last_y = entries[entries.len() - 1].1 as i128;
        column_line_at(canvas, sx, first_y, last_y, junction::VERTICAL);
        put(canvas, sx, ey, junction::MIDDLE_RIGHT);
        let ghost g4 = canvas.chars();
        let n = entries.len();
        let mut i: usize = 0;
        while i < n
            invariant
                0 <= i <= n,
                n == entries@.len(),
                n > 1,
                keeps_frame(*old(canvas), *canvas),
                w == canvas.width as int,
                sx == spine_x.unwrap() as int,
                canvas.chars() == spine_links(g4, w, sx as int, entries@, i as int),
            decreases n - i,
        {
            let (cx, cy) = (entries[i].0 as i128, entries[i].1 as i128);
            row_line_at(canvas, sx, cx, cy, '─');
            let j = if i == 0 {
                junction::TOP_CORNER
            } else if i == n - 1 {
                junction::BOTTOM_CORNER
            } else {
                junction::MIDDLE_LEFT
            };
            put(canvas, sx, cy, j);
            i = i + 1;
        }
    }
}

/// Draws what follows a node that leaves at `exit` (see
/// [`node_connections`]).
pub fn draw_node_connections(
    canvas: &mut BufferCanvas,
    collapsed: bool,
    has_children: bool,
    exit: (i64, i64),
    spine_x: Option<i64>,
    entries: &Vec<(i64, i64)>,
    has_hidden: bool,
)
    requires
        old(canvas).wf(),
    ensures
        keeps_frame(*old(canvas), *final(canvas)),
        final(canvas).chars() == node_connections(
            old(canvas).chars(),
            old(canvas).width as int,
            collapsed,
            has_children,
            exit,
            spine_x,
            entries@,
            has_hidden,
        ),
{
    if collapsed && has_children {
        let text = if has_hidden {
            connections::COLLAPSED_HIDDEN
        } else {
            connections::COLLAPSED
        };
        text_at(canvas, exit.0 as i128, exit.1 as i128, text);
    } else if entries.len() > 0 {
        draw_child_connections(canvas, exit, spine_x, entries, has_hidden);
    } else if has_hidden {
        text_at(canvas, exit.0 as i128, exit.1 as i128, connections::HIDDEN_ONLY);
    }
}

/// Node `id` has children that are not drawn: fewer than all of them are
/// `shown`, or one of them is hidden.
pub open spec fn children_left_out(t: TreeView, id: NodeId, shown: nat) -> bool {
    let cs = children_of(t, id);
    cs.len() != shown || exists|i: int| 0 <= i < cs.len() && hidden_in(t, #[trigger] cs[i])
}

/// Whether node `id`, with `shown` of its children drawn, has children that
/// are not drawn (see [`children_left_out`]).
pub fn has_hidden_children(app: &AppState, id: NodeId, shown: usize) -> (r: bool)
    requires
        tree_wf(app.tree_view()),
        app.tree_view().contains_key(id),
    ensures
        r == children_left_out(app.tree_view(), id, shown as nat),
{
    let ghost t = app.tree_view();
    let cs = node_children(&app.tree, id);
    if cs.len() != shown {
        return true;
    }
    let mut i: usize = 0;
    while i < cs.len()
        invariant
            t == app.tree_view(),
            tree_wf(t),
            t.contains_key(id),
            cs@ == children_of(t, id),
            0 <= i <= cs@.len(),
            forall|k: int| 0 <= k < i ==> !hidden_in(t, #[trigger] cs@[k]),
        decreases cs@.len() - i,
    {
        proof {
            assert(t.contains_key(t[id].2[i as int]));
        }
        if arena_get_data(&app.tree, cs[i]).unwrap().is_hidden() {
            assert(hidden_in(t, cs@[i as int]));
            return true;
        }
        i = i + 1;
    }
    false
}

} // verus!
