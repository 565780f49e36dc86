//! How the map's nodes look on the canvas.
use crate::app::AppState;
use crate::model::{hidden_marker, starts_with, str_starts_with, Node};
use crate::tree::{arena_get_data, arena_nodes, node_children, node_id_eq, node_parent, parent_of, tree_wf};
use crate::text::{byte_len, char_index, chars_of, copy_range, is_boundary, locate, push_all, str_byte_len, string_from_chars};
use crate::ui::canvas::{placed, BufferCanvas, CellStyle};
use crate::ui::text::{wrap_text, TextWrapper};
use indextree::NodeId;
use vstd::prelude::*;

verus! {

/// The look of a node with title `title` and hidden flag `flag`: the active
/// node stands out; otherwise a title that starts with the first or the
/// second symbol takes that symbol's look, then a hidden node is dimmed, and
/// the rest are plain.
pub open spec fn node_look(
    active: bool,
    title: Seq<char>,
    hidden: bool,
    symbol1: Seq<char>,
    symbol2: Seq<char>,
) -> CellStyle {
    if active {
        CellStyle::Active
    } else if starts_with(title, symbol1) {
        CellStyle::Symbol1
    } else if starts_with(title, symbol2) {
        CellStyle::Symbol2
    } else if hidden {
        CellStyle::Hidden
    } else {
        CellStyle::Plain
    }
}

/// The look node `id` is drawn in (see [`node_look`]); a node that is not in
/// the map is plain.
pub fn node_style(app: &AppState, id: NodeId) -> (s: CellStyle)
    ensures
        !arena_nodes(app.tree).contains_key(id) ==> s == CellStyle::Plain,
        arena_nodes(app.tree).contains_key(id) ==> s == node_look(
            app.active_node_id == Some(id),
            arena_nodes(app.tree)[id].0.0,
            arena_nodes(app.tree)[id].0.2 || starts_with(
                arena_nodes(app.tree)[id].0.0,
                crate::model::hidden_marker(),
            ),
            app.config.symbol1@,
            app.config.symbol2@,
        ),
{
    let node: &Node = match arena_get_data(&app.tree, id) {
        Some(n) => n,
        None => return CellStyle::Plain,
    };
    let active = match app.active_node_id {
        Some(a) => node_id_eq(a, id),
        None => false,
    };
    if active {
        CellStyle::Active
    } else if crate::model::str_starts_with(node.title.as_str(), app.config.symbol1.as_str()) {
        CellStyle::Symbol1
    } else if crate::model::str_starts_with(node.title.as_str(), app.config.symbol2.as_str()) {
        CellStyle::Symbol2
    } else if node.is_hidden() {
        CellStyle::Hidden
    } else {
        CellStyle::Plain
    }
}

/// With hidden nodes not shown, a node whose parent has another child
/// whose title carries the hidden marker is drawn one column further right
/// (a space before its text), to keep it clear of where that sibling's line
/// would be.
pub open spec fn hidden_gap_of(app: AppState, id: NodeId) -> bool {
    let t = app.tree_view();
    &&& !app.config.show_hidden
    &&& parent_of(t, id) matches Some(p) && exists|i: int|
        0 <= i < t[p].2.len() && #[trigger] t[p].2[i] != id && starts_with(t[t[p].2[i]].0.0, hidden_marker())
}

/// Whether node `id` is drawn after a space (see [`hidden_gap_of`]).
pub fn hidden_gap(app: &AppState, id: NodeId) -> (r: bool)
    requires
        tree_wf(app.tree_view()),
        app.tree_view().contains_key(id),
    ensures
        r == hidden_gap_of(*app, id),
{
    if app.config.show_hidden {
        return false;
    }
    let ghost t = app.tree_view();
    let p = match node_parent(&app.tree, id) {
        Some(p) => p,
        None => return false,
    };
    let siblings = node_children(&app.tree, p);
    let mut i: usize = 0;
    while i < siblings.len()
        invariant
            t == app.tree_view(),
            tree_wf(t),
            t.contains_key(p),
            parent_of(t, id) == Some(p),
            !app.config.show_hidden,
            siblings@ == t[p].2,
            0 <= i <= siblings@.len(),
            forall|k: int| 0 <= k < i ==> !(#[trigger] siblings@[k] != id && starts_with(t[siblings@[k]].0.0, hidden_marker())),
        decreases siblings@.len() - i,
    {
        let s = siblings[i];
        proof {
            assert(t.contains_key(t[p].2[i as int]));
        }
        if !node_id_eq(s, id) {
            let title = &arena_get_data(&app.tree, s).unwrap().title;
            proof {
                reveal_strlit("[HIDDEN] ");
                assert("[HIDDEN] "@ =~= hidden_marker());
            }
            if str_starts_with(title.as_str(), "[HIDDEN] ") {
                assert(t[p].2[i as int] != id && starts_with(t[t[p].2[i as int]].0.0, hidden_marker()));
                return true;
            }
        }
        i = i + 1;
    }
    false
}

/// What is left of `title` when its first `clip` bytes are cut off: the
/// rest from the character that starts there, nothing when the title is not
/// longer.
pub open spec fn clipped_text(title: Seq<char>, clip: int) -> Seq<char> {
    if clip < byte_len(title) {
        title.skip(char_index(title, clip))
    } else {
        Seq::empty()
    }
}

/// The text a node shows: its title clipped on the left, after a space when
/// nothing is clipped, the node leaves a gap for a hidden sibling and there
/// is text to show.
pub open spec fn node_text(title: Seq<char>, clip: int, gap: bool) -> Seq<char> {
    let base = clipped_text(title, clip);
    if clip == 0 && gap && base.len() > 0 {
        seq![' '] + base
    } else {
        base
    }
}

/// The title can be clipped after `clip` bytes: they end on a character, or
/// cover the whole title.
pub open spec fn clip_ok(title: Seq<char>, clip: int) -> bool {
    clip >= byte_len(title) || is_boundary(title, clip)
}

/// `g` with the first `k` of `lines` written one below the other from
/// column `x` of row `y`, as far as the grid reaches.
pub open spec fn block_chars(g: Seq<Seq<char>>, width: int, x: int, y: int, lines: Seq<Seq<char>>, k: int) -> Seq<
    Seq<char>,
>
    decreases k,
{
    if k <= 0 {
        g
    } else {
        placed(block_chars(g, width, x, y, lines, k - 1), width, x, y + k - 1, lines[k - 1])
    }
}

/// The looks after writing the first `k` of `lines` in the look `style`
/// (see [`block_chars`]).
pub open spec fn block_styles(
    g: Seq<Seq<CellStyle>>,
    width: int,
    x: int,
    y: int,
    lines: Seq<Seq<char>>,
    k: int,
    style: CellStyle,
) -> Seq<Seq<CellStyle>>
    decreases k,
{
    if k <= 0 {
        g
    } else {
        placed(
            block_styles(g, width, x, y, lines, k - 1, style),
            width,
            x,
            y + k - 1,
            Seq::new(lines[k - 1].len(), |i: int| style),
        )
    }
}

/// Whether `title` can be clipped after `clip` bytes (see [`clip_ok`]).
pub fn can_clip(title: &str, clip: usize) -> (ok: bool)
    ensures
        ok == clip_ok(title@, clip as int),
{
    let v = chars_of(title);
    clip >= str_byte_len(title) || locate(&v, clip).is_some()
}

/// Sets the character and look at column `x` of row `y`, when that lies on
/// the canvas.
fn put_cell(canvas: &mut BufferCanvas, x: i128, y: i128, ch: char, style: CellStyle)
    requires
        old(canvas).wf(),
    ensures
        final(canvas).wf(),
        final(canvas).width == old(canvas).width,
        final(canvas).height == old(canvas).height,
        final(canvas).chars() == placed(old(canvas).chars(), old(canvas).width as int, x as int, y as int, seq![ch]),
        final(canvas).styles() == placed(old(canvas).styles(), old(canvas).width as int, x as int, y as int, seq![style]),
{
    if 0 <= x && x <= usize::MAX as i128 && 0 <= y && y <= usize::MAX as i128 {
        canvas.set_cell(x as usize, y as usize, ch, style);
    } else {
        assert(placed(canvas.chars(), canvas.width as int, x as int, y as int, seq![ch]) =~~= canvas.chars());
        assert(placed(canvas.styles(), canvas.width as int, x as int, y as int, seq![style]) =~~= canvas.styles());
    }
}

/// Writes `s` in the look `style` from column `x` of row `y` on, as far as
/// the canvas reaches.
fn styled_at(canvas: &mut BufferCanvas, x: i128, y: i128, s: &str, style: CellStyle)
    requires
        old(canvas).wf(),
        -0x1_0000_0000_0000_0000 <= x <= 0x1_0000_0000_0000_0000,
    ensures
        final(canvas).wf(),
        final(canvas).width == old(canvas).width,
        final(canvas).height == old(canvas).height,
        final(canvas).chars() == placed(old(canvas).chars(), old(canvas).width as int, x as int, y as int, s@),
        final(canvas).styles() == placed(
            old(canvas).styles(),
            old(canvas).width as int,
            x as int,
            y as int,
            Seq::new(s@.len(), |i: int| style),
        ),
{
    let ghost g = canvas.chars();
    let ghost gs = canvas.styles();
    let n = s.unicode_len();
    let mut i: usize = 0;
    proof {
        crate::ui::canvas::lemma_placed_nothing(g, canvas.width as int, x as int, y as int);
        crate::ui::canvas::lemma_placed_nothing(gs, canvas.width as int, x as int, y as int);
        assert(s@.take(0) =~= Seq::<char>::empty());
        assert(Seq::new(0, |k: int| style) =~= Seq::<CellStyle>::empty());
    }
    while i < n
        invariant
            0 <= i <= n,
            n == s@.len(),
            -0x1_0000_0000_0000_0000 <= x <= 0x1_0000_0000_0000_0000,
            canvas.wf(),
            canvas.width == old(canvas).width,
            canvas.height == old(canvas).height,
            g == old(canvas).chars(),
            gs == old(canvas).styles(),
            canvas.chars() == placed(g, canvas.width as int, x as int, y as int, s@.take(i as int)),
            canvas.styles() == placed(gs, canvas.width as int, x as int, y as int, Seq::new(i as nat, |k: int| style)),
        decreases n - i,
    {
        let ch = s.get_char(i);
        put_cell(canvas, x + i as i128, y, ch, style);
        i = i + 1;
        assert(canvas.chars() =~~= placed(g, canvas.width as int, x as int, y as int, s@.take(i as int)));
        assert(canvas.styles() =~~= placed(
            gs,
            canvas.width as int,
            x as int,
            y as int,
            Seq::new(i as nat, |k: int| style),
        ));
    }
    assert(s@.take(n as int) =~= s@);
    assert(Seq::new(n as nat, |k: int| style) =~= Seq::new(s@.len(), |k: int| style));
}

/// Draws a node's text in the look `style` from column `x` of row `y`: the
/// title with its first `left_clip` bytes cut off, after a space when it
/// leaves a gap for a hidden sibling (see [`node_text`]), wrapped at `width`
/// columns, one line per row.
pub fn draw_node_text(
    canvas: &mut BufferCanvas,
    x: i64,
    y: i64,
    title: &str,
    left_clip: usize,
    gap: bool,
    width: usize,
    style: CellStyle,
)
    requires
        old(canvas).wf(),
        clip_ok(title@, left_clip as int),
    ensures
        final(canvas).wf(),
        final(canvas).width == old(canvas).width,
        final(canvas).height == old(canvas).height,
        ({
            let lines = wrap_text(node_text(title@, left_clip as int, gap), width as nat);
            &&& final(canvas).chars() == block_chars(
                old(canvas).chars(),
                old(canvas).width as int,
                x as int,
                y as int,
                lines,
                lines.len() as int,
            )
            &&& final(canvas).styles() == block_styles(
                old(canvas).styles(),
                old(canvas).width as int,
                x as int,
                y as int,
                lines,
                lines.len() as int,
                style,
            )
        }),
{
    let v = chars_of(title);
    let bl = str_byte_len(title);
    let base: Vec<char> = if left_clip < bl {
        let k = locate(&v, left_clip).unwrap();
        copy_range(&v, k, v.len())
    } else {
        Vec::new()
    };
    proof {
        if left_clip < bl {
            assert(base@ =~= title@.skip(char_index(title@, left_clip as int)));
        }
    }
    let mut text: Vec<char> = Vec::new();
    if left_clip == 0 && gap && base.len() > 0 {
        text.push(' ');
    }
    push_all(&mut text, &base);
    proof {
        assert(text@ =~= node_text(title@, left_clip as int, gap));
    }
    let s = string_from_chars(&text);
    let lines = TextWrapper::wrap(s.as_str(), width);
    let ghost ls = lines@.map_values(|l: String| l@);
    let ghost g = canvas.chars();
    let ghost gs = canvas.styles();
    let mut i: usize = 0;
    while i < lines.len()
        invariant
            0 <= i <= lines@.len(),
            ls == lines@.map_values(|l: String| l@),
            canvas.wf(),
            canvas.width == old(canvas).width,
            canvas.height == old(canvas).height,
            g == old(canvas).chars(),
            gs == old(canvas).styles(),
            canvas.chars() == block_chars(g, canvas.width as int, x as int, y as int, ls, i as int),
            canvas.styles() == block_styles(gs, canvas.width as int, x as int, y as int, ls, i as int, style),
        decreases lines@.len() - i,
    {
        styled_at(canvas, x as i128, y as i128 + i as i128, lines[i].as_str(), style);
        i = i + 1;
    }
}

} // verus!
