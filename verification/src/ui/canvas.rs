//! A grid of characters, each with the look it is drawn in, that the map is
//! drawn on before it goes to the terminal.
use vstd::prelude::*;

verus! {

/// The look of a cell; the front end gives each its colours.
#[derive(Debug, Clone, Copy, PartialEq, Eq, Structural)]
pub enum CellStyle {
    Plain,
    Active,
    Symbol1,
    Symbol2,
    Hidden,
    Line,
}

/// A `width` by `height` grid of characters and looks, row by row.
pub struct BufferCanvas {
    pub char_buffer: Vec<Vec<char>>,
    pub style_buffer: Vec<Vec<CellStyle>>,
    pub width: usize,
    pub height: usize,
}

/// The characters of a grid, row by row.
pub open spec fn rows_view<T>(g: Seq<Vec<T>>) -> Seq<Seq<T>> {
    g.map_values(|r: Vec<T>| r@)
}

/// `g` with the cells of row `y` from column `x` on set to the items of
/// `s`, as far as the grid reaches.
pub open spec fn placed<T>(g: Seq<Seq<T>>, width: int, x: int, y: int, s: Seq<T>) -> Seq<Seq<T>> {
    Seq::new(
        g.len(),
        |r: int|
            Seq::new(
                g[r].len(),
                |c: int|
                    if r == y && x <= c < x + s.len() && c < width {
                        s[c - x]
                    } else {
                        g[r][c]
                    },
            ),
    )
}

/// Placing nothing leaves the grid as it is.
pub proof fn lemma_placed_nothing<T>(g: Seq<Seq<T>>, width: int, x: int, y: int)
    ensures
        placed(g, width, x, y, Seq::<T>::empty()) == g,
{
    assert(placed(g, width, x, y, Seq::<T>::empty()) =~~= g);
}

/// A row of `n` copies of `v`.
fn filled_row<T: Copy>(n: usize, v: T) -> (r: Vec<T>)
    ensures
        r@ == Seq::new(n as nat, |i: int| v),
{
    let mut r: Vec<T> = Vec::new();
    let mut i: usize = 0;
    while i < n
        invariant
            0 <= i <= n,
            r@ == Seq::new(i as nat, |k: int| v),
        decreases n - i,
    {
        r.push(v);
        i = i + 1;
        assert(r@ =~= Seq::new(i as nat, |k: int| v));
    }
    r
}

/// A copy of `row` with the item at `x` set to `v`.
fn row_with<T: Copy>(row: &Vec<T>, x: usize, v: T) -> (r: Vec<T>)
    requires
        x < row@.len(),
    ensures
        r@ == row@.update(x as int, v),
{
    let mut r: Vec<T> = Vec::new();
    let mut i: usize = 0;
    while i < row.len()
        invariant
            0 <= i <= row@.len(),
            x < row@.len(),
            r@ == row@.update(x as int, v).take(i as int),
        decreases row@.len() - i,
    {
        if i == x {
            r.push(v);
        } else {
            r.push(row[i]);
        }
        i = i + 1;
        assert(r@ =~= row@.update(x as int, v).take(i as int));
    }
    assert(row@.update(x as int, v).take(row@.len() as int) =~= row@.update(x as int, v));
    r
}

impl BufferCanvas {
    /// The characters, row by row.
    pub open spec fn chars(&self) -> Seq<Seq<char>> {
        rows_view(self.char_buffer@)
    }

    /// The looks, row by row.
    pub open spec fn styles(&self) -> Seq<Seq<CellStyle>> {
        rows_view(self.style_buffer@)
    }

    /// Both grids have `height` rows of `width` cells.
    pub open spec fn wf(&self) -> bool {
        &&& self.char_buffer@.len() == self.height
        &&& self.style_buffer@.len() == self.height
        &&& forall|r: int| 0 <= r < self.height ==> (#[trigger] self.char_buffer@[r])@.len() == self.width
        &&& forall|r: int| 0 <= r < self.height ==> (#[trigger] self.style_buffer@[r])@.len() == self.width
    }

    /// A blank canvas: spaces in the plain look.
    pub fn new(width: usize, height: usize) -> (c: BufferCanvas)
        ensures
            c.wf(),
            c.width == width,
            c.height == height,
            c.chars() == Seq::new(height as nat, |r: int| Seq::new(width as nat, |x: int| ' ')),
            c.styles() == Seq::new(height as nat, |r: int| Seq::new(width as nat, |x: int| CellStyle::Plain)),
    {
        let mut chars: Vec<Vec<char>> = Vec::new();
        let mut styles: Vec<Vec<CellStyle>> = Vec::new();
        let mut i: usize = 0;
        while i < height
            invariant
                0 <= i <= height,
                chars@.len() == i,
                styles@.len() == i,
                forall|r: int| 0 <= r < i ==> (#[trigger] chars@[r])@ == Seq::new(width as nat, |x: int| ' '),
                forall|r: int|
                    0 <= r < i ==> (#[trigger] styles@[r])@ == Seq::new(width as nat, |x: int| CellStyle::Plain),
            decreases height - i,
        {
            chars.push(filled_row(width, ' '));
            styles.push(filled_row(width, CellStyle::Plain));
            i = i + 1;
        }
        let c = BufferCanvas { char_buffer: chars, style_buffer: styles, width, height };
        assert(c.chars() =~= Seq::new(height as nat, |r: int| Seq::new(width as nat, |x: int| ' ')));
        assert(c.styles() =~= Seq::new(height as nat, |r: int| Seq::new(width as nat, |x: int| CellStyle::Plain)));
        c
    }

    /// Whether column `x` of row `y` lies on the canvas.
    pub fn in_bounds(&self, x: usize, y: usize) -> (b: bool)
        ensures
            b == (y < self.height && x < self.width),
    {
        y < self.height && x < self.width
    }

    /// Sets the character at column `x` of row `y`, when that lies on the
    /// canvas.
    pub fn set_char(&mut self, x: usize, y: usize, ch: char)
        requires
            old(self).wf(),
        ensures
            final(self).wf(),
            final(self).width == old(self).width,
            final(self).height == old(self).height,
            final(self).styles() == old(self).styles(),
            final(self).chars() == placed(old(self).chars(), old(self).width as int, x as int, y as int, seq![ch]),
    {
        let ghost g = self.chars();
        if self.in_bounds(x, y) {
            let row = row_with(&self.char_buffer[y], x, ch);
            self.char_buffer.set(y, row);
        }
        assert(self.chars() =~~= placed(g, self.width as int, x as int, y as int, seq![ch]));
    }

    /// Sets the character and the look at column `x` of row `y`, when that
    /// lies on the canvas.
    pub(crate) fn set_cell(&mut self, x: usize, y: usize, ch: char, style: CellStyle)
        requires
            old(self).wf(),
        ensures
            final(self).wf(),
            final(self).width == old(self).width,
            final(self).height == old(self).height,
            final(self).chars() == placed(old(self).chars(), old(self).width as int, x as int, y as int, seq![ch]),
            final(self).styles() == placed(old(self).styles(), old(self).width as int, x as int, y as int, seq![style]),
    {
        let ghost g = self.chars();
        let ghost gs = self.styles();
        if self.in_bounds(x, y) {
            let row = row_with(&self.char_buffer[y], x, ch);
            self.char_buffer.set(y, row);
            let srow = row_with(&self.style_buffer[y], x, style);
            self.style_buffer.set(y, srow);
        }
        assert(self.chars() =~~= placed(g, self.width as int, x as int, y as int, seq![ch]));
        assert(self.styles() =~~= placed(gs, self.width as int, x as int, y as int, seq![style]));
    }

    /// Writes `text` from column `x` of row `y` on, as far as the canvas
    /// reaches.
    pub fn draw_text(&mut self, x: usize, y: usize, text: &str)
        requires
            old(self).wf(),
            x + text@.len() <= usize::MAX,
        ensures
            final(self).wf(),
            final(self).width == old(self).width,
            final(self).height == old(self).height,
            final(self).styles() == old(self).styles(),
            final(self).chars() == placed(old(self).chars(), old(self).width as int, x as int, y as int, text@),
    {
        let ghost g = self.chars();
        let n = text.unicode_len();
        let mut i: usize = 0;
        proof {
            lemma_placed_nothing(g, self.width as int, x as int, y as int);
            assert(text@.take(0) =~= Seq::<char>::empty());
        }
        while i < n
            invariant
                0 <= i <= n,
                n == text@.len(),
                x + n <= usize::MAX,
                self.wf(),
                self.width == old(self).width,
                self.height == old(self).height,
                self.styles() == old(self).styles(),
                g == old(self).chars(),
                self.chars() == placed(g, self.width as int, x as int, y as int, text@.take(i as int)),
            decreases n - i,
        {
            let ch = text.get_char(i);
            let ghost before = self.chars();
            self.set_char(x + i, y, ch);
            i = i + 1;
            assert(self.chars() =~~= placed(g, self.width as int, x as int, y as int, text@.take(i as int)));
        }
        assert(text@.take(n as int) =~= text@);
    }

    /// Writes `text` from column `x` of row `y` on in the look `style`, as
    /// far as the canvas reaches.
    pub fn draw_styled_text(&mut self, x: usize, y: usize, text: &str, style: CellStyle)
        requires
            old(self).wf(),
            x + text@.len() <= usize::MAX,
        ensures
            final(self).wf(),
            final(self).width == old(self).width,
            final(self).height == old(self).height,
            final(self).chars() == placed(old(self).chars(), old(self).width as int, x as int, y as int, text@),
            final(self).styles() == placed(
                old(self).styles(),
                old(self).width as int,
                x as int,
                y as int,
                Seq::new(text@.len(), |i: int| style),
            ),
    {
        let ghost g = self.chars();
        let ghost gs = self.styles();
        let n = text.unicode_len();
        let mut i: usize = 0;
        proof {
            lemma_placed_nothing(g, self.width as int, x as int, y as int);
            lemma_placed_nothing(gs, self.width as int, x as int, y as int);
            assert(text@.take(0) =~= Seq::<char>::empty());
            assert(Seq::new(0, |k: int| style) =~= Seq::<CellStyle>::empty());
        }
        while i < n
            invariant
                0 <= i <= n,
                n == text@.len(),
                x + n <= usize::MAX,
                self.wf(),
                self.width == old(self).width,
                self.height == old(self).height,
                g == old(self).chars(),
                gs == old(self).styles(),
                self.chars() == placed(g, self.width as int, x as int, y as int, text@.take(i as int)),
                self.styles() == placed(
                    gs,
                    self.width as int,
                    x as int,
                    y as int,
                    Seq::new(i as nat, |k: int| style),
                ),
            decreases n - i,
        {
            let ch = text.get_char(i);
            self.set_cell(x + i, y, ch, style);
            i = i + 1;
            assert(self.chars() =~~= placed(g, self.width as int, x as int, y as int, text@.take(i as int)));
            assert(self.styles() =~~= placed(
                gs,
                self.width as int,
                x as int,
                y as int,
                Seq::new(i as nat, |k: int| style),
            ));
        }
        assert(text@.take(n as int) =~= text@);
        assert(Seq::new(n as nat, |k: int| style) =~= Seq::new(text@.len(), |k: int| style));
    }
}

} // verus!
