//! The cell grid that widgets draw into, and a minimal diff renderer.
use vstd::prelude::*;
use crate::ansi::{csi, dec, push_char, push_chars, push_dec};
use crate::color::ColorLevel;
use crate::layout::Rect;
use crate::style::{plain_style, Style};

verus! {

/// A single terminal cell.
#[derive(Clone, Copy, Debug, PartialEq, Eq, Structural)]
pub struct Cell {
    pub ch: char,
    pub style: Style,
}

/// A space in the plain style.
pub open spec fn blank_cell() -> Cell {
    Cell { ch: ' ', style: plain_style() }
}

impl Cell {
    pub fn new(ch: char, style: Style) -> (c: Cell)
        ensures
            c == (Cell { ch, style }),
    {
        Cell { ch, style }
    }

    pub fn blank() -> (c: Cell)
        ensures
            c == blank_cell(),
    {
        Cell { ch: ' ', style: Style::default() }
    }
}

/// Position of `(x, y)` in a row-major grid `w` cells wide.
pub open spec fn grid_index(w: int, x: int, y: int) -> int {
    y * w + x
}

/// Row-major positions of cells inside a `w`×`h` grid are in range and distinct.
pub proof fn lemma_grid_index(w: int, h: int, x: int, y: int)
    requires
        0 <= x < w,
        0 <= y < h,
    ensures
        0 <= grid_index(w, x, y) < w * h,
        0 <= y * w <= grid_index(w, x, y),
        grid_index(w, x, y) / w == y,
        grid_index(w, x, y) % w == x,
{
    assert(0 <= y * w + x < w * h) by (nonlinear_arith)
        requires 0 <= x < w, 0 <= y < h;
    assert((y * w + x) / w == y && (y * w + x) % w == x) by (nonlinear_arith)
        requires 0 <= x < w, 0 <= y;
}

/// Distinct in-range coordinates have distinct positions.
pub proof fn lemma_grid_index_inj(w: int, x1: int, y1: int, x2: int, y2: int)
    requires
        0 <= x1 < w,
        0 <= x2 < w,
        0 <= y1,
        0 <= y2,
        grid_index(w, x1, y1) == grid_index(w, x2, y2),
    ensures
        x1 == x2 && y1 == y2,
{
    lemma_grid_index(w, y1 + 1, x1, y1);
    lemma_grid_index(w, y2 + 1, x2, y2);
}

/// A grid of cells covering a rectangular area.
///
/// `cells` holds the grid row by row; the buffer is well formed (`wf`)
/// when it has exactly one cell per position of `area`.
#[derive(Clone, Debug)]
pub struct Buffer {
    pub area: Rect,
    pub cells: Vec<Cell>,
}

impl Buffer {
    /// The cells, row by row.
    pub open spec fn cells_spec(&self) -> Seq<Cell> {
        self.cells@
    }

    /// One cell per position of the area.
    pub open spec fn wf(&self) -> bool {
        self.cells_spec().len() == self.area.w * self.area.h
    }

    pub open spec fn in_bounds(&self, x: int, y: int) -> bool {
        0 <= x < self.area.w && 0 <= y < self.area.h
    }

    /// The cell at `(x, y)`, a blank one outside the buffer.
    pub open spec fn cell(&self, x: int, y: int) -> Cell {
        if self.in_bounds(x, y) {
            self.cells_spec()[grid_index(self.area.w as int, x, y)]
        } else {
            blank_cell()
        }
    }

    /// Same area, and equal cells everywhere.
    pub open spec fn same_grid(&self, o: &Buffer) -> bool {
        &&& self.area == o.area
        &&& forall|x: int, y: int| self.in_bounds(x, y) ==> #[trigger] self.cell(x, y) == o.cell(x, y)
    }

    /// Create a blank buffer.
    pub fn empty(area: Rect) -> (b: Buffer)
        ensures
            b.wf(),
            b.area == area,
            forall|x: int, y: int| b.in_bounds(x, y) ==> #[trigger] b.cell(x, y) == blank_cell(),
    {
        proof {
            let (w, h) = (area.w as int, area.h as int);
            assert(0 <= w * h <= 65535 * 65535) by (nonlinear_arith)
                requires 0 <= w <= 65535, 0 <= h <= 65535;
        }
        let n = (area.w as usize) * (area.h as usize);
        let mut cells: Vec<Cell> = Vec::new();
        let mut i: usize = 0;
        while i < n
            invariant
                i <= n,
                cells.len() == i,
                forall|k: int| 0 <= k < i ==> #[trigger] cells@[k] == blank_cell(),
            decreases n - i,
        {
            cells.push(Cell::blank());
            i = i + 1;
        }
        let b = Buffer { area, cells };
        proof {
            assert forall|x: int, y: int| b.in_bounds(x, y) implies #[trigger] b.cell(x, y)
                == blank_cell() by {
                lemma_grid_index(area.w as int, area.h as int, x, y);
            }
        }
        b
    }

    /// A copy of this buffer.
    pub fn snapshot(&self) -> (b: Buffer)
        ensures
            b.area == self.area,
            b.cells_spec() == self.cells_spec(),
    {
        let mut cells: Vec<Cell> = Vec::new();
        let mut i: usize = 0;
        while i < self.cells.len()
            invariant
                i <= self.cells.len(),
                cells@ == self.cells@.subrange(0, i as int),
            decreases self.cells.len() - i,
        {
            cells.push(self.cells[i]);
            i = i + 1;
        }
        assert(self.cells@.subrange(0, i as int) =~= self.cells@);
        Buffer { area: self.area, cells }
    }

    /// Position of `(x, y)` in the cell list, if it lies inside the buffer.
    fn idx(&self, x: u16, y: u16) -> (i: Option<usize>)
        requires
            self.wf(),
        ensures
            self.in_bounds(x as int, y as int) <==> i is Some,
            i matches Some(k) ==> k == grid_index(self.area.w as int, x as int, y as int) && k
                < self.cells_spec().len(),
    {
        if x < self.area.w && y < self.area.h {
            proof {
                let (w, h) = (self.area.w as int, self.area.h as int);
                lemma_grid_index(w, h, x as int, y as int);
                assert(w * h <= 65535 * 65535) by (nonlinear_arith)
                    requires 0 <= w <= 65535, 0 <= h <= 65535;
            }
            Some(y as usize * self.area.w as usize + x as usize)
        } else {
            None
        }
    }

    /// Get a cell (out-of-bounds returns a blank copy without storing).
    pub fn get(&self, x: u16, y: u16) -> (c: Cell)
        requires
            self.wf(),
        ensures
            c == self.cell(x as int, y as int),
    {
        match self.idx(x, y) {
            Some(i) => {
                assert(self.cells@[i as int] == self.cell(x as int, y as int));
                self.cells[i]
            },
            None => Cell::blank(),
        }
    }

    /// Set a cell (outside the buffer nothing happens).
    pub fn set(&mut self, x: u16, y: u16, cell: Cell)
        requires
            old(self).wf(),
        ensures
            final(self).wf(),
            final(self).area == old(self).area,
            forall|a: int, b: int|
                #[trigger] final(self).cell(a, b) == if a == x && b == y && old(self).in_bounds(
                    a,
                    b,
                ) {
                    cell
                } else {
                    old(self).cell(a, b)
                },
    {
        match self.idx(x, y) {
            Some(i) => {
                self.cells.set(i, cell);
                proof {
                    assert forall|a: int, b: int| #[trigger] self.cell(a, b) == if a == x && b == y
                        && old(self).in_bounds(a, b) {
                        cell
                    } else {
                        old(self).cell(a, b)
                    } by {
                        if self.in_bounds(a, b) {
                            lemma_grid_index(self.area.w as int, self.area.h as int, a, b);
                            if grid_index(self.area.w as int, a, b) == i {
                                lemma_grid_index_inj(self.area.w as int, a, b, x as int, y as int);
                            } else {
                                assert(self.cells@[grid_index(self.area.w as int, a, b)]
                                    == old(self).cells@[grid_index(self.area.w as int, a, b)]);
                            }
                        }
                    }
                }
            },
            None => {},
        }
    }

    /// Set a character with a style at `(x, y)`.
    pub fn put(&mut self, x: u16, y: u16, ch: char, style: Style)
        requires
            old(self).wf(),
        ensures
            final(self).wf(),
            final(self).area == old(self).area,
            forall|a: int, b: int|
                #[trigger] final(self).cell(a, b) == if a == x && b == y && old(self).in_bounds(
                    a,
                    b,
                ) {
                    Cell { ch, style }
                } else {
                    old(self).cell(a, b)
                },
    {
        self.set(x, y, Cell::new(ch, style));
    }

    /// Set every cell of the buffer to `c`.
    fn fill_cells(&mut self, c: Cell)
        requires
            old(self).wf(),
        ensures
            final(self).wf(),
            final(self).area == old(self).area,
            forall|x: int, y: int| final(self).in_bounds(x, y) ==> #[trigger] final(self).cell(x, y) == c,
    {
        let n = self.cells.len();
        let mut i: usize = 0;
        while i < n
            invariant
                i <= n,
                n == self.cells@.len(),
                self.area == old(self).area,
                self.wf(),
                forall|k: int| 0 <= k < i ==> #[trigger] self.cells@[k] == c,
            decreases n - i,
        {
            self.cells.set(i, c);
            i = i + 1;
        }
        proof {
            assert forall|x: int, y: int| self.in_bounds(x, y) implies #[trigger] self.cell(x, y)
                == c by {
                lemma_grid_index(self.area.w as int, self.area.h as int, x, y);
            }
        }
    }

    /// Reset every cell to blank.
    pub fn clear(&mut self)
        requires
            old(self).wf(),
        ensures
            final(self).wf(),
            final(self).area == old(self).area,
            forall|x: int, y: int|
                final(self).in_bounds(x, y) ==> #[trigger] final(self).cell(x, y) == blank_cell(),
    {
        self.fill_cells(Cell::blank());
    }

    /// Fill the whole buffer with one cell.
    pub fn fill(&mut self, ch: char, style: Style)
        requires
            old(self).wf(),
        ensures
            final(self).wf(),
            final(self).area == old(self).area,
            forall|x: int, y: int|
                final(self).in_bounds(x, y) ==> #[trigger] final(self).cell(x, y) == (Cell {
                    ch,
                    style,
                }),
    {
        self.fill_cells(Cell::new(ch, style));
    }
}


impl Buffer {
    /// Change the area; the part that both areas cover keeps its cells,
    /// the rest is blank.
    pub fn resize(&mut self, area: Rect)
        requires
            old(self).wf(),
        ensures
            final(self).wf(),
            final(self).area == area,
            forall|x: int, y: int|
                final(self).in_bounds(x, y) ==> #[trigger] final(self).cell(x, y) == if old(
                    self,
                ).in_bounds(x, y) {
                    old(self).cell(x, y)
                } else {
                    blank_cell()
                },
    {
        if self.area == area {
            return ;
        }
        let mut nb = Buffer::empty(area);
        let w: u16 = if self.area.w <= area.w {
            self.area.w
        } else {
            area.w
        };
        let h: u16 = if self.area.h <= area.h {
            self.area.h
        } else {
            area.h
        };
        let mut y: u16 = 0;
        while y < h
            invariant
                self == old(self),
                self.wf(),
                nb.wf(),
                nb.area == area,
                w == if self.area.w <= area.w {
                    self.area.w
                } else {
                    area.w
                },
                h == if self.area.h <= area.h {
                    self.area.h
                } else {
                    area.h
                },
                y <= h,
                forall|a: int, b: int|
                    nb.in_bounds(a, b) ==> #[trigger] nb.cell(a, b) == if b < y && a < w {
                        self.cell(a, b)
                    } else {
                        blank_cell()
                    },
            decreases h - y,
        {
            let mut x: u16 = 0;
            while x < w
                invariant
                    self == old(self),
                    self.wf(),
                    nb.wf(),
                    nb.area == area,
                    w <= self.area.w && w <= area.w,
                    y < h && h <= self.area.h && h <= area.h,
                    x <= w,
                    forall|a: int, b: int|
                        nb.in_bounds(a, b) ==> #[trigger] nb.cell(a, b) == if (b < y && a < w) || (b
                            == y && a < x) {
                            self.cell(a, b)
                        } else {
                            blank_cell()
                        },
                decreases w - x,
            {
                let c = self.get(x, y);
                nb.set(x, y, c);
                x = x + 1;
            }
            y = y + 1;
        }
        *self = nb;
    }

    /// Cell `(a, b)` after writing `text` in `style` from `(x, y)` rightwards.
    pub open spec fn text_cell(&self, x: int, y: int, text: Seq<char>, style: Style, a: int, b: int) -> Cell {
        if b == y && x <= a < x + text.len() && self.in_bounds(a, b) {
            Cell { ch: text[a - x], style }
        } else {
            self.cell(a, b)
        }
    }

    /// Write a string at `(x, y)`, advancing horizontally, clipping to the buffer.
    pub fn write_str(&mut self, x: u16, y: u16, s: &str, style: Style)
        requires
            old(self).wf(),
        ensures
            final(self).wf(),
            final(self).area == old(self).area,
            forall|a: int, b: int|
                #[trigger] final(self).cell(a, b) == old(self).text_cell(x as int, y as int, s@, style, a, b),
    {
        let chars = crate::ansi::str_chars(s);
        let mut cx: u16 = x;
        let mut k: usize = 0;
        while k < chars.len()
            invariant
                chars@ == s@,
                k <= chars.len(),
                cx == x + k,
                self.wf(),
                self.area == old(self).area,
                forall|a: int, b: int|
                    #[trigger] self.cell(a, b) == if b == y && x <= a < x + k && old(self).in_bounds(
                        a,
                        b,
                    ) {
                        Cell { ch: s@[a - x], style }
                    } else {
                        old(self).cell(a, b)
                    },
            ensures
                k == chars.len() || cx >= self.area.w,
                k <= chars.len(),
                cx == x + k,
                self.wf(),
                self.area == old(self).area,
                forall|a: int, b: int|
                    #[trigger] self.cell(a, b) == if b == y && x <= a < x + k && old(self).in_bounds(
                        a,
                        b,
                    ) {
                        Cell { ch: s@[a - x], style }
                    } else {
                        old(self).cell(a, b)
                    },
            decreases chars.len() - k,
        {
            if cx >= self.area.w {
                break;
            }
            self.put(cx, y, chars[k], style);
            cx = cx + 1;
            k = k + 1;
        }
    }

    /// Overlay `other` onto this buffer with its top-left corner at
    /// `(ox, oy)`; whatever falls outside this buffer is dropped.
    pub fn merge(&mut self, other: &Buffer, ox: u16, oy: u16)
        requires
            old(self).wf(),
            other.wf(),
            other.area.w > 0 && other.area.h > 0 ==> ox + other.area.w - 1 <= u16::MAX && oy
                + other.area.h - 1 <= u16::MAX,
        ensures
            final(self).wf(),
            final(self).area == old(self).area,
            forall|a: int, b: int|
                #[trigger] final(self).cell(a, b) == if old(self).in_bounds(a, b) && ox <= a < ox
                    + other.area.w && oy <= b < oy + other.area.h {
                    other.cell(a - ox, b - oy)
                } else {
                    old(self).cell(a, b)
                },
    {
        let mut y: u16 = 0;
        while y < other.area.h
            invariant
                other.wf(),
                self.wf(),
                self.area == old(self).area,
                y <= other.area.h,
                other.area.w > 0 && other.area.h > 0 ==> ox + other.area.w - 1 <= u16::MAX && oy
                    + other.area.h - 1 <= u16::MAX,
                forall|a: int, b: int|
                    #[trigger] self.cell(a, b) == if old(self).in_bounds(a, b) && ox <= a < ox
                        + other.area.w && oy <= b < oy + y {
                        other.cell(a - ox, b - oy)
                    } else {
                        old(self).cell(a, b)
                    },
            decreases other.area.h - y,
        {
            let mut x: u16 = 0;
            while x < other.area.w
                invariant
                    other.wf(),
                    self.wf(),
                    self.area == old(self).area,
                    y < other.area.h,
                    x <= other.area.w,
                    other.area.w > 0 && other.area.h > 0 ==> ox + other.area.w - 1 <= u16::MAX && oy
                        + other.area.h - 1 <= u16::MAX,
                    forall|a: int, b: int|
                        #[trigger] self.cell(a, b) == if old(self).in_bounds(a, b) && ((ox <= a < ox
                            + other.area.w && oy <= b < oy + y) || (ox <= a < ox + x && b == oy + y)) {
                            other.cell(a - ox, b - oy)
                        } else {
                            old(self).cell(a, b)
                        },
                decreases other.area.w - x,
            {
                let c = other.get(x, y);
                let dx = ox + x;
                let dy = oy + y;
                if dx < self.area.w && dy < self.area.h {
                    self.set(dx, dy, c);
                }
                x = x + 1;
            }
            y = y + 1;
        }
    }
}

/// The text that moves the cursor to `(x, y)` and draws `c` there.
pub open spec fn cell_update(x: int, y: int, c: Cell, level: ColorLevel) -> Seq<char> {
    csi() + dec((y + 1) as nat) + seq![';'] + dec((x + 1) as nat) + seq!['H'] + c.style.open_spec(
        level,
    ) + seq![c.ch] + csi() + seq!['0', 'm']
}

impl Buffer {
    /// Whether `(x, y)` must be redrawn over `prev`.
    pub open spec fn changed(&self, prev: Option<&Buffer>, x: int, y: int) -> bool {
        match prev {
            None => true,
            Some(p) => y >= p.area.h || x >= p.area.w || self.cell(x, y) != p.cell(x, y),
        }
    }

    /// Updates for the first `n` cells of row `y`.
    pub open spec fn diff_row(&self, prev: Option<&Buffer>, level: ColorLevel, y: int, n: int) -> Seq<
        char,
    >
        decreases n,
    {
        if n <= 0 {
            seq![]
        } else {
            self.diff_row(prev, level, y, n - 1) + if self.changed(prev, n - 1, y) {
                cell_update(n - 1, y, self.cell(n - 1, y), level)
            } else {
                seq![]
            }
        }
    }

    /// Updates for the first `m` rows.
    pub open spec fn diff_rows(&self, prev: Option<&Buffer>, level: ColorLevel, m: int) -> Seq<char>
        decreases m,
    {
        if m <= 0 {
            seq![]
        } else {
            self.diff_rows(prev, level, m - 1) + self.diff_row(prev, level, m - 1, self.area.w as int)
        }
    }

    /// Everything that turns the screen showing `prev` into this buffer:
    /// each changed cell in row-major order, then, when `prev` was taller,
    /// a clear of the rows below.
    pub open spec fn diff_spec(&self, prev: Option<&Buffer>, level: ColorLevel) -> Seq<char> {
        self.diff_rows(prev, level, self.area.h as int) + match prev {
            Some(p) => if p.area.h > self.area.h {
                csi() + dec((self.area.h + 1) as nat) + seq![';', '1', 'H'] + csi() + seq!['J']
            } else {
                seq![]
            },
            None => seq![],
        }
    }

    /// Produce an ANSI string that updates `prev` into `self`.
    ///
    /// When `prev` is `None`, the whole buffer is emitted. This diff keeps
    /// real-time rendering smooth (no full-screen clears / flicker).
    pub fn diff(&self, prev: Option<&Buffer>, level: ColorLevel) -> (out: String)
        requires
            self.wf(),
            prev matches Some(p) ==> p.wf(),
        ensures
            out@ == self.diff_spec(prev, level),
    {
        let mut out = String::new();
        let w = self.area.w;
        let h = self.area.h;
        let mut y: u16 = 0;
        while y < h
            invariant
                self.wf(),
                prev matches Some(p) ==> p.wf(),
                w == self.area.w,
                h == self.area.h,
                y <= h,
                out@ == self.diff_rows(prev, level, y as int),
            decreases h - y,
        {
            let mut x: u16 = 0;
            while x < w
                invariant
                    self.wf(),
                    prev matches Some(p) ==> p.wf(),
                    w == self.area.w,
                    h == self.area.h,
                    y < h,
                    x <= w,
                    out@ == self.diff_rows(prev, level, y as int) + self.diff_row(
                        prev,
                        level,
                        y as int,
                        x as int,
                    ),
                decreases w - x,
            {
                let cell = self.get(x, y);
                let changed = match prev {
                    None => true,
                    Some(p) => y >= p.area.h || x >= p.area.w || cell != p.get(x, y),
                };
                if changed {
                    let ghost before = out@;
                    push_cell_update(&mut out, x, y, cell, level);
                    assert(out@ =~= self.diff_rows(prev, level, y as int) + self.diff_row(
                        prev,
                        level,
                        y as int,
                        x + 1,
                    ));
                } else {
                    assert(self.diff_row(prev, level, y as int, x + 1) =~= self.diff_row(
                        prev,
                        level,
                        y as int,
                        x as int,
                    ));
                }
                x = x + 1;
            }
            y = y + 1;
        }
        match prev {
            Some(p) => {
                if p.area.h > h {
                    push_chars(&mut out, &['\x1b', '[']);
                    push_dec(&mut out, (h + 1) as u32);
                    push_chars(&mut out, &[';', '1', 'H', '\x1b', '[', 'J']);
                    assert(out@ =~= self.diff_spec(prev, level));
                } else {
                    assert(out@ =~= self.diff_spec(prev, level));
                }
            },
            None => {
                assert(out@ =~= self.diff_spec(prev, level));
            },
        }
        out
    }
}

/// Appends the update that draws `c` at `(x, y)`.
fn push_cell_update(out: &mut String, x: u16, y: u16, c: Cell, level: ColorLevel)
    requires
        x < u16::MAX,
        y < u16::MAX,
    ensures
        final(out)@ == old(out)@ + cell_update(x as int, y as int, c, level),
{
    push_chars(out, &['\x1b', '[']);
    push_dec(out, (y + 1) as u32);
    push_chars(out, &[';']);
    push_dec(out, (x + 1) as u32);
    push_chars(out, &['H']);
    let open = c.style.open(level);
    out.append(open.as_str());
    push_char(out, c.ch);
    push_chars(out, &['\x1b', '[', '0', 'm']);
    assert(out@ =~= old(out)@ + cell_update(x as int, y as int, c, level));
}


proof fn lemma_diff_row_unchanged(b: &Buffer, p: &Buffer, level: ColorLevel, y: int, n: int)
    requires
        b.same_grid(p),
        0 <= y < b.area.h,
        0 <= n <= b.area.w,
    ensures
        b.diff_row(Some(p), level, y, n) == Seq::<char>::empty(),
    decreases n,
{
    if n > 0 {
        lemma_diff_row_unchanged(b, p, level, y, n - 1);
        assert(b.cell(n - 1, y) == p.cell(n - 1, y));
        assert(b.diff_row(Some(p), level, y, n) =~= Seq::<char>::empty());
    }
}

proof fn lemma_diff_rows_unchanged(b: &Buffer, p: &Buffer, level: ColorLevel, m: int)
    requires
        b.same_grid(p),
        0 <= m <= b.area.h,
    ensures
        b.diff_rows(Some(p), level, m) == Seq::<char>::empty(),
    decreases m,
{
    if m > 0 {
        lemma_diff_rows_unchanged(b, p, level, m - 1);
        lemma_diff_row_unchanged(b, p, level, m - 1, b.area.w as int);
        assert(b.diff_rows(Some(p), level, m) =~= Seq::<char>::empty());
    }
}

/// Redrawing over a screen that already shows the same grid emits nothing.
pub proof fn law_diff_unchanged_is_empty(b: &Buffer, p: &Buffer, level: ColorLevel)
    requires
        b.same_grid(p),
    ensures
        b.diff_spec(Some(p), level) == Seq::<char>::empty(),
{
    lemma_diff_rows_unchanged(b, p, level, b.area.h as int);
    assert(b.diff_spec(Some(p), level) =~= Seq::<char>::empty());
}

/// A full redraw (no previous screen) writes every cell of the buffer:
/// row by row, each cell's update in order.
pub proof fn law_diff_full_redraw(b: &Buffer, level: ColorLevel, y: int, n: int)
    requires
        0 <= n,
    ensures
        b.diff_row(None, level, y, n + 1) == b.diff_row(None, level, y, n) + cell_update(
            n,
            y,
            b.cell(n, y),
            level,
        ),
{
}


/// `b` and `p` share their area and differ at most at `(x, y)`.
pub open spec fn same_but(b: &Buffer, p: &Buffer, x: int, y: int) -> bool {
    &&& b.area == p.area
    &&& forall|i: int, j: int| b.in_bounds(i, j) && !(i == x && j == y) ==> #[trigger] b.cell(i, j) == p.cell(i, j)
}

proof fn lemma_diff_row_one(b: &Buffer, p: &Buffer, level: ColorLevel, x: int, y: int, r: int, n: int)
    requires
        same_but(b, p, x, y),
        b.in_bounds(x, y),
        0 <= r < b.area.h,
        0 <= n <= b.area.w,
    ensures
        b.diff_row(Some(p), level, r, n) == (if r == y && x < n && b.cell(x, y) != p.cell(x, y) {
            cell_update(x, y, b.cell(x, y), level)
        } else {
            Seq::<char>::empty()
        }),
    decreases n,
{
    if n > 0 {
        lemma_diff_row_one(b, p, level, x, y, r, n - 1);
        if !(r == y && n - 1 == x) {
            assert(b.cell(n - 1, r) == p.cell(n - 1, r));
        }
        assert(b.diff_row(Some(p), level, r, n) =~= (if r == y && x < n && b.cell(x, y) != p.cell(x, y) {
            cell_update(x, y, b.cell(x, y), level)
        } else {
            Seq::<char>::empty()
        }));
    }
}

proof fn lemma_diff_rows_one(b: &Buffer, p: &Buffer, level: ColorLevel, x: int, y: int, m: int)
    requires
        same_but(b, p, x, y),
        b.in_bounds(x, y),
        0 <= m <= b.area.h,
    ensures
        b.diff_rows(Some(p), level, m) == (if y < m && b.cell(x, y) != p.cell(x, y) {
            cell_update(x, y, b.cell(x, y), level)
        } else {
            Seq::<char>::empty()
        }),
    decreases m,
{
    if m > 0 {
        lemma_diff_rows_one(b, p, level, x, y, m - 1);
        lemma_diff_row_one(b, p, level, x, y, m - 1, b.area.w as int);
        assert(b.diff_rows(Some(p), level, m) =~= (if y < m && b.cell(x, y) != p.cell(x, y) {
            cell_update(x, y, b.cell(x, y), level)
        } else {
            Seq::<char>::empty()
        }));
    }
}

/// Over a screen that differs from the buffer in the single cell at column
/// `x`, row `y`, the diff is exactly: move the cursor to row `y + 1`,
/// column `x + 1` (`ESC [ row ; column H`, both counted from 1), open the
/// cell's style, write its character, and reset the attributes.
pub proof fn law_diff_one_cell(b: &Buffer, p: &Buffer, level: ColorLevel, x: int, y: int)
    requires
        same_but(b, p, x, y),
        b.in_bounds(x, y),
        b.cell(x, y) != p.cell(x, y),
    ensures
        b.diff_spec(Some(p), level) == seq!['\x1b', '['] + dec((y + 1) as nat) + seq![';'] + dec((x + 1) as nat)
            + seq!['H'] + b.cell(x, y).style.open_spec(level) + seq![b.cell(x, y).ch] + seq!['\x1b', '[', '0', 'm'],
{
    lemma_diff_rows_one(b, p, level, x, y, b.area.h as int);
    assert(b.diff_spec(Some(p), level) =~= seq!['\x1b', '['] + dec((y + 1) as nat) + seq![';'] + dec((x + 1) as nat)
        + seq!['H'] + b.cell(x, y).style.open_spec(level) + seq![b.cell(x, y).ch] + seq!['\x1b', '[', '0', 'm']);
}
} // verus!
