//! Geometry: `Rect`, `Point`, `Align` and the constraint-driven `Layout`.
use vstd::prelude::*;

verus! {

/// `a + b`, saturated at `u16::MAX`.
pub open spec fn sat_add(a: int, b: int) -> int {
    if a + b > 65535 {
        65535
    } else {
        a + b
    }
}

/// `a - b`, saturated at zero.
pub open spec fn sat_sub(a: int, b: int) -> int {
    if a - b < 0 {
        0
    } else {
        a - b
    }
}

pub open spec fn min_int(a: int, b: int) -> int {
    if a <= b {
        a
    } else {
        b
    }
}

pub open spec fn max_int(a: int, b: int) -> int {
    if a >= b {
        a
    } else {
        b
    }
}

/// A 2D point (column `x`, row `y`).
#[derive(Clone, Copy, Debug, Default, PartialEq, Eq, Structural)]
pub struct Point {
    pub x: u16,
    pub y: u16,
}

impl Point {
    pub fn new(x: u16, y: u16) -> (p: Point)
        ensures
            p.x == x,
            p.y == y,
    {
        Point { x, y }
    }
}

/// A rectangle defined by its top-left origin and size.
#[derive(Clone, Copy, Debug, Default, PartialEq, Eq, Structural)]
pub struct Rect {
    pub x: u16,
    pub y: u16,
    pub w: u16,
    pub h: u16,
}

/// The rectangle with the given fields.
pub open spec fn mk_rect(x: int, y: int, w: int, h: int) -> Rect {
    Rect { x: x as u16, y: y as u16, w: w as u16, h: h as u16 }
}

impl Rect {
    /// One past the last column (saturated).
    pub open spec fn right_spec(self) -> int {
        sat_add(self.x as int, self.w as int)
    }

    /// One past the last row (saturated).
    pub open spec fn bottom_spec(self) -> int {
        sat_add(self.y as int, self.h as int)
    }

    pub open spec fn contains_spec(self, x: int, y: int) -> bool {
        &&& self.x <= x < self.right_spec()
        &&& self.y <= y < self.bottom_spec()
    }

    /// The rect shrunk by `dx` columns and `dy` rows on each side.
    pub open spec fn inset_spec(self, dx: int, dy: int) -> Rect {
        mk_rect(
            sat_add(self.x as int, dx),
            sat_add(self.y as int, dy),
            sat_sub(self.w as int, 2 * dx),
            sat_sub(self.h as int, 2 * dy),
        )
    }

    pub open spec fn intersect_spec(self, o: Rect) -> Rect {
        let x = max_int(self.x as int, o.x as int);
        let y = max_int(self.y as int, o.y as int);
        let r = min_int(self.right_spec(), o.right_spec());
        let b = min_int(self.bottom_spec(), o.bottom_spec());
        mk_rect(x, y, sat_sub(r, x), sat_sub(b, y))
    }

    /// Build a rectangle from origin + size.
    pub fn new(x: u16, y: u16, w: u16, h: u16) -> (r: Rect)
        ensures
            r == (Rect { x, y, w, h }),
    {
        Rect { x, y, w, h }
    }

    /// Set the origin.
    pub fn xy(self, x: u16, y: u16) -> (r: Rect)
        ensures
            r == (Rect { x, y, w: self.w, h: self.h }),
    {
        let mut r = self;
        r.x = x;
        r.y = y;
        r
    }

    /// Set the size.
    pub fn wh(self, w: u16, h: u16) -> (r: Rect)
        ensures
            r == (Rect { x: self.x, y: self.y, w, h }),
    {
        let mut r = self;
        r.w = w;
        r.h = h;
        r
    }

    /// Area in cells.
    pub fn area(self) -> (a: u32)
        ensures
            a == self.w * self.h,
    {
        proof {
            let (w, h) = (self.w as int, self.h as int);
            assert(w * h <= 65535 * 65535) by (nonlinear_arith)
                requires
                    0 <= w <= 65535,
                    0 <= h <= 65535,
            ;
        }
        self.w as u32 * self.h as u32
    }

    pub fn right(self) -> (r: u16)
        ensures
            r == self.right_spec(),
    {
        self.x.saturating_add(self.w)
    }

    pub fn bottom(self) -> (b: u16)
        ensures
            b == self.bottom_spec(),
    {
        self.y.saturating_add(self.h)
    }

    pub fn contains(self, x: u16, y: u16) -> (b: bool)
        ensures
            b == self.contains_spec(x as int, y as int),
    {
        x >= self.x && x < self.right() && y >= self.y && y < self.bottom()
    }

    /// Shrink the rect by `n` cells on every side. Clamped to zero.
    pub fn padding(self, n: u16) -> (r: Rect)
        requires
            2 * n <= u16::MAX,
        ensures
            r == self.inset_spec(n as int, n as int),
    {
        Rect {
            x: self.x.saturating_add(n),
            y: self.y.saturating_add(n),
            w: self.w.saturating_sub(n * 2),
            h: self.h.saturating_sub(n * 2),
        }
    }

    /// Inset by different horizontal / vertical amounts.
    pub fn inset(self, h: u16, v: u16) -> (r: Rect)
        requires
            2 * h <= u16::MAX,
            2 * v <= u16::MAX,
        ensures
            r == self.inset_spec(h as int, v as int),
    {
        Rect {
            x: self.x.saturating_add(h),
            y: self.y.saturating_add(v),
            w: self.w.saturating_sub(h * 2),
            h: self.h.saturating_sub(v * 2),
        }
    }

    /// The inner rect (1 cell border) — handy for panels.
    pub fn inner(self) -> (r: Rect)
        ensures
            r == self.inset_spec(1, 1),
    {
        self.padding(1)
    }

    /// Center point of the rect.
    pub fn center(self) -> (p: Point)
        requires
            self.x + self.w / 2 <= u16::MAX,
            self.y + self.h / 2 <= u16::MAX,
        ensures
            p.x == self.x + self.w / 2,
            p.y == self.y + self.h / 2,
    {
        Point::new(self.x + self.w / 2, self.y + self.h / 2)
    }

    /// Intersection with another rect (may be empty).
    pub fn intersect(self, o: Rect) -> (r: Rect)
        ensures
            r == self.intersect_spec(o),
    {
        let x = if self.x >= o.x {
            self.x
        } else {
            o.x
        };
        let y = if self.y >= o.y {
            self.y
        } else {
            o.y
        };
        let sr = self.right();
        let or = o.right();
        let r = if sr <= or {
            sr
        } else {
            or
        };
        let sb = self.bottom();
        let ob = o.bottom();
        let b = if sb <= ob {
            sb
        } else {
            ob
        };
        Rect { x, y, w: r.saturating_sub(x), h: b.saturating_sub(y) }
    }

    /// Clip a rect to `bound`.
    pub fn clip_to(self, bound: Rect) -> (r: Rect)
        ensures
            r == self.intersect_spec(bound),
    {
        self.intersect(bound)
    }

    /// The `k`-th of `n` equal columns with `gap` cells between them.
    pub open spec fn column_spec(self, n: int, gap: int, k: int) -> Rect {
        let w = sat_sub(self.w as int, gap * (n - 1)) / n;
        mk_rect(min_int(self.x + k * (w + gap), 65535), self.y as int, w, self.h as int)
    }

    /// The `k`-th of `n` equal rows with `gap` cells between them.
    pub open spec fn row_spec(self, n: int, gap: int, k: int) -> Rect {
        let h = sat_sub(self.h as int, gap * (n - 1)) / n;
        mk_rect(self.x as int, min_int(self.y + k * (h + gap), 65535), self.w as int, h)
    }

    /// Split vertically into `n` equal columns with optional gap.
    pub fn split_v(self, n: u16, gap: u16) -> (out: Vec<Rect>)
        requires
            n > 0 ==> gap * (n - 1) <= u16::MAX,
        ensures
            out.len() == n,
            forall|k: int| 0 <= k < n ==> #[trigger] out@[k] == self.column_spec(n as int, gap as int, k),
    {
        if n == 0 {
            return Vec::new();
        }
        let total_gap = gap * (n - 1);
        let avail: u16 = if self.w >= total_gap {
            self.w - total_gap
        } else {
            0
        };
        let w = avail / n;
        let mut out: Vec<Rect> = Vec::new();
        let mut x = self.x;
        let mut i: u16 = 0;
        while i < n
            invariant
                0 < n,
                i <= n,
                total_gap == gap * (n - 1),
                w == sat_sub(self.w as int, total_gap as int) / n as int,
                out.len() == i,
                x == min_int(self.x + i * (w + gap), 65535),
                forall|k: int| 0 <= k < i ==> #[trigger] out@[k] == self.column_spec(n as int, gap as int, k),
            decreases n - i,
        {
            out.push(Rect::new(x, self.y, w, self.h));
            proof {
                let (a, ii, s) = (self.x as int, i as int, (w + gap) as int);
                assert(a + (ii + 1) * s == a + ii * s + s) by (nonlinear_arith);
                assert(ii * s >= 0) by (nonlinear_arith)
                    requires ii >= 0, s >= 0;
            }
            x = x.saturating_add(w).saturating_add(gap);
            i = i + 1;
        }
        out
    }

    /// Split horizontally into `n` equal rows with optional gap.
    pub fn split_h(self, n: u16, gap: u16) -> (out: Vec<Rect>)
        requires
            n > 0 ==> gap * (n - 1) <= u16::MAX,
        ensures
            out.len() == n,
            forall|k: int| 0 <= k < n ==> #[trigger] out@[k] == self.row_spec(n as int, gap as int, k),
    {
        if n == 0 {
            return Vec::new();
        }
        let total_gap = gap * (n - 1);
        let avail: u16 = if self.h >= total_gap {
            self.h - total_gap
        } else {
            0
        };
        let h = avail / n;
        let mut out: Vec<Rect> = Vec::new();
        let mut y = self.y;
        let mut i: u16 = 0;
        while i < n
            invariant
                0 < n,
                i <= n,
                total_gap == gap * (n - 1),
                h == sat_sub(self.h as int, total_gap as int) / n as int,
                out.len() == i,
                y == min_int(self.y + i * (h + gap), 65535),
                forall|k: int| 0 <= k < i ==> #[trigger] out@[k] == self.row_spec(n as int, gap as int, k),
            decreases n - i,
        {
            out.push(Rect::new(self.x, y, self.w, h));
            proof {
                let (a, ii, s) = (self.y as int, i as int, (h + gap) as int);
                assert(a + (ii + 1) * s == a + ii * s + s) by (nonlinear_arith);
                assert(ii * s >= 0) by (nonlinear_arith)
                    requires ii >= 0, s >= 0;
            }
            y = y.saturating_add(h).saturating_add(gap);
            i = i + 1;
        }
        out
    }

    /// Center a `w`×`h` box inside this rect (clamped to fit).
    pub fn centered(self, w: u16, h: u16) -> (r: Rect)
        requires
            self.x + (self.w - min_int(w as int, self.w as int)) / 2 <= u16::MAX,
            self.y + (self.h - min_int(h as int, self.h as int)) / 2 <= u16::MAX,
        ensures
            r == self.centered_spec(w as int, h as int),
    {
        let w = if w <= self.w {
            w
        } else {
            self.w
        };
        let h = if h <= self.h {
            h
        } else {
            self.h
        };
        let x = self.x + (self.w - w) / 2;
        let y = self.y + (self.h - h) / 2;
        Rect::new(x, y, w, h)
    }

    pub open spec fn centered_spec(self, w: int, h: int) -> Rect {
        let w = min_int(w, self.w as int);
        let h = min_int(h, self.h as int);
        mk_rect(self.x + (self.w - w) / 2, self.y + (self.h - h) / 2, w, h)
    }

    /// Alias for [`Rect::centered`].
    pub fn fit(self, w: u16, h: u16) -> (r: Rect)
        requires
            self.x + (self.w - min_int(w as int, self.w as int)) / 2 <= u16::MAX,
            self.y + (self.h - min_int(h as int, self.h as int)) / 2 <= u16::MAX,
        ensures
            r == self.centered_spec(w as int, h as int),
    {
        self.centered(w, h)
    }
}

/// Horizontal + vertical alignment inside a box.
#[derive(Clone, Copy, Debug, PartialEq, Eq, Structural)]
pub enum Align {
    Left,
    Center,
    Right,
    Top,
    Middle,
    Bottom,
}

impl Align {
    pub open spec fn h_offset_spec(self, len: int, width: int) -> int {
        match self {
            Align::Center | Align::Middle => sat_sub(width, len) / 2,
            Align::Right | Align::Bottom => sat_sub(width, len),
            _ => 0,
        }
    }

    pub open spec fn v_offset_spec(self, height: int, rows: int) -> int {
        match self {
            Align::Middle | Align::Center => sat_sub(rows, height) / 2,
            Align::Bottom => sat_sub(rows, height),
            _ => 0,
        }
    }

    /// Horizontal placement of `len` cells within `width`.
    pub fn h_offset(self, len: u16, width: u16) -> (off: u16)
        ensures
            off == self.h_offset_spec(len as int, width as int),
    {
        match self {
            Align::Center | Align::Middle => (width.saturating_sub(len)) / 2,
            Align::Right | Align::Bottom => width.saturating_sub(len),
            _ => 0,
        }
    }

    /// Vertical placement of `height` cells within `rows`.
    pub fn v_offset(self, height: u16, rows: u16) -> (off: u16)
        ensures
            off == self.v_offset_spec(height as int, rows as int),
    {
        match self {
            Align::Middle | Align::Center => (rows.saturating_sub(height)) / 2,
            Align::Bottom => rows.saturating_sub(height),
            _ => 0,
        }
    }
}

} // verus!

verus! {

/// A layout direction.
#[derive(Clone, Copy, Debug, PartialEq, Eq, Structural)]
pub enum Direction {
    Horizontal,
    Vertical,
}

/// A sizing constraint used by [`Layout`] to auto-size regions.
#[derive(Clone, Copy, Debug, PartialEq, Eq, Structural)]
pub enum Constraint {
    /// Fixed number of cells.
    Length(u16),
    /// A percentage (0..=100) of the available space.
    Percentage(u16),
    /// A ratio `num / den` of the available space.
    Ratio(u32, u32),
    /// At least this many cells, but may grow.
    Min(u16),
    /// At most this many cells.
    Max(u16),
    /// Take all remaining space (shares equally with other `Fill`/`Auto`).
    Fill,
    /// Auto: minimal size, grows to fill remaining space.
    Auto,
}

/// A bare number of cells is a [`Constraint::Length`].
impl From<u16> for Constraint {
    fn from(v: u16) -> (c: Constraint) {
        Constraint::Length(v)
    }
}

impl vstd::std_specs::convert::FromSpecImpl<u16> for Constraint {
    open spec fn obeys_from_spec() -> bool {
        true
    }

    open spec fn from_spec(v: u16) -> Constraint {
        Constraint::Length(v)
    }
}

/// A pair `(num, den)` is a [`Constraint::Ratio`].
impl From<(u32, u32)> for Constraint {
    fn from(v: (u32, u32)) -> (c: Constraint) {
        Constraint::Ratio(v.0, v.1)
    }
}

impl vstd::std_specs::convert::FromSpecImpl<(u32, u32)> for Constraint {
    open spec fn obeys_from_spec() -> bool {
        true
    }

    open spec fn from_spec(v: (u32, u32)) -> Constraint {
        Constraint::Ratio(v.0, v.1)
    }
}

/// What a constraint asks for, given the usable space and what is still unclaimed.
pub open spec fn wanted(c: Constraint, usable: int, remaining: int) -> int {
    match c {
        Constraint::Length(v) => v as int,
        Constraint::Percentage(p) => usable * p / 100,
        Constraint::Ratio(a, b) => if b == 0 {
            0
        } else {
            usable * a / (b as int)
        },
        Constraint::Max(v) => min_int(v as int, remaining),
        Constraint::Min(v) => min_int(v as int, remaining),
        Constraint::Fill | Constraint::Auto => 0,
    }
}

/// Whether a constraint's first-pass size is taken out of the remaining space.
pub open spec fn claims(c: Constraint) -> bool {
    !(c is Fill || c is Auto)
}

/// Whether a constraint takes a share of the space left after the first pass.
pub open spec fn grows(c: Constraint) -> bool {
    c is Fill || c is Auto || c is Min
}

/// Space still unclaimed after the first pass has looked at the first `i` constraints.
pub open spec fn unclaimed(cs: Seq<Constraint>, usable: int, i: int) -> int
    decreases i, 1int,
{
    if i <= 0 {
        usable
    } else {
        let r = unclaimed(cs, usable, i - 1);
        if claims(cs[i - 1]) {
            r - base_size(cs, usable, i - 1)
        } else {
            r
        }
    }
}

/// First-pass size of region `i`.
pub open spec fn base_size(cs: Seq<Constraint>, usable: int, i: int) -> int
    decreases i, 2int,
{
    if i < 0 {
        0
    } else {
        let r = unclaimed(cs, usable, i);
        min_int(max_int(wanted(cs[i], usable, r), 0), r)
    }
}

/// How many of the first `i` constraints grow.
pub open spec fn grow_rank(cs: Seq<Constraint>, i: int) -> int
    decreases i,
{
    if i <= 0 {
        0
    } else {
        grow_rank(cs, i - 1) + if grows(cs[i - 1]) {
            1int
        } else {
            0int
        }
    }
}

/// The extra cells region `i` receives in the second pass: the leftover is
/// split evenly among the growing regions, the first `leftover % count` of
/// them taking one cell more.
pub open spec fn extra_size(cs: Seq<Constraint>, usable: int, i: int) -> int {
    let left = unclaimed(cs, usable, cs.len() as int);
    let g = grow_rank(cs, cs.len() as int);
    if grows(cs[i]) && g > 0 {
        left / g + if grow_rank(cs, i) < left % g {
            1int
        } else {
            0int
        }
    } else {
        0
    }
}

/// Final size of region `i`.
pub open spec fn final_size(cs: Seq<Constraint>, usable: int, i: int) -> int {
    base_size(cs, usable, i) + extra_size(cs, usable, i)
}

/// Offset of region `i` along the layout direction.
pub open spec fn region_pos(cs: Seq<Constraint>, usable: int, start: int, spacing: int, i: int) -> int
    decreases i,
{
    if i <= 0 {
        start
    } else {
        region_pos(cs, usable, start, spacing, i - 1) + final_size(cs, usable, i - 1) + spacing
    }
}

/// A responsive layout that splits a rect into regions automatically.
#[derive(Clone, Debug)]
pub struct Layout {
    direction: Direction,
    constraints: Vec<Constraint>,
    margin: u16,
    spacing: u16,
}

impl Layout {
    pub closed spec fn direction_spec(&self) -> Direction {
        self.direction
    }

    pub closed spec fn constraints_spec(&self) -> Seq<Constraint> {
        self.constraints@
    }

    pub closed spec fn margin_spec(&self) -> u16 {
        self.margin
    }

    pub closed spec fn spacing_spec(&self) -> u16 {
        self.spacing
    }

    /// The area left inside the margin.
    pub open spec fn inner_spec(&self, area: Rect) -> Rect {
        let m = self.margin_spec() as int;
        mk_rect(area.x + m, area.y + m, sat_sub(area.w as int, 2 * m), sat_sub(area.h as int, 2 * m))
    }

    /// The space along the layout direction after removing the gaps.
    pub open spec fn usable_spec(&self, area: Rect) -> int {
        let inner = self.inner_spec(area);
        let total = if self.direction_spec() == Direction::Horizontal {
            inner.w as int
        } else {
            inner.h as int
        };
        sat_sub(total, self.spacing_spec() * (self.constraints_spec().len() - 1))
    }

    pub open spec fn start_spec(&self, area: Rect) -> int {
        let inner = self.inner_spec(area);
        if self.direction_spec() == Direction::Horizontal {
            inner.x as int
        } else {
            inner.y as int
        }
    }

    pub open spec fn size_of(&self, area: Rect, i: int) -> int {
        final_size(self.constraints_spec(), self.usable_spec(area), i)
    }

    pub open spec fn pos_of(&self, area: Rect, i: int) -> int {
        region_pos(
            self.constraints_spec(),
            self.usable_spec(area),
            self.start_spec(area),
            self.spacing_spec() as int,
            i,
        )
    }

    /// Region `i` of the split of `area`.
    pub open spec fn region(&self, area: Rect, i: int) -> Rect {
        let inner = self.inner_spec(area);
        if self.direction_spec() == Direction::Horizontal {
            mk_rect(self.pos_of(area, i), inner.y as int, self.size_of(area, i), inner.h as int)
        } else {
            mk_rect(inner.x as int, self.pos_of(area, i), inner.w as int, self.size_of(area, i))
        }
    }

    /// The arithmetic of a split of `area` stays within `u16`.
    pub open spec fn fits(&self, area: Rect) -> bool {
        let n = self.constraints_spec().len();
        let m = self.margin_spec() as int;
        n > 0 ==> {
            &&& area.x + m <= u16::MAX
            &&& area.y + m <= u16::MAX
            &&& 2 * m <= u16::MAX
            &&& n <= u16::MAX
            &&& self.spacing_spec() * (n - 1) <= u16::MAX
            &&& forall|i: int|
                0 <= i < n ==> #[trigger] self.pos_of(area, i) + self.size_of(area, i)
                    + self.spacing_spec() <= u16::MAX
        }
    }

    /// A vertical (top-to-bottom) layout.
    pub fn vertical(c: Vec<Constraint>) -> (l: Layout)
        ensures
            l.direction_spec() == Direction::Vertical,
            l.constraints_spec() == c@,
            l.margin_spec() == 0,
            l.spacing_spec() == 0,
    {
        Layout::new(Direction::Vertical, c)
    }

    /// A horizontal (left-to-right) layout.
    pub fn horizontal(c: Vec<Constraint>) -> (l: Layout)
        ensures
            l.direction_spec() == Direction::Horizontal,
            l.constraints_spec() == c@,
            l.margin_spec() == 0,
            l.spacing_spec() == 0,
    {
        Layout::new(Direction::Horizontal, c)
    }

    /// Build a layout with an explicit direction.
    pub fn new(direction: Direction, c: Vec<Constraint>) -> (l: Layout)
        ensures
            l.direction_spec() == direction,
            l.constraints_spec() == c@,
            l.margin_spec() == 0,
            l.spacing_spec() == 0,
    {
        Layout { direction, constraints: c, margin: 0, spacing: 0 }
    }

    /// Add a single constraint (builder style).
    pub fn constraint(self, c: Constraint) -> (l: Layout)
        ensures
            l.direction_spec() == self.direction_spec(),
            l.constraints_spec() == self.constraints_spec().push(c),
            l.margin_spec() == self.margin_spec(),
            l.spacing_spec() == self.spacing_spec(),
    {
        let mut l = self;
        l.constraints.push(c);
        l
    }

    /// Outer margin (cells on every side).
    pub fn margin(self, n: u16) -> (l: Layout)
        ensures
            l.direction_spec() == self.direction_spec(),
            l.constraints_spec() == self.constraints_spec(),
            l.margin_spec() == n,
            l.spacing_spec() == self.spacing_spec(),
    {
        let mut l = self;
        l.margin = n;
        l
    }

    /// Gap between regions (cells).
    pub fn spacing(self, n: u16) -> (l: Layout)
        ensures
            l.direction_spec() == self.direction_spec(),
            l.constraints_spec() == self.constraints_spec(),
            l.margin_spec() == self.margin_spec(),
            l.spacing_spec() == n,
    {
        let mut l = self;
        l.spacing = n;
        l
    }
}


/// The first pass never claims more than is unclaimed.
proof fn lemma_unclaimed(cs: Seq<Constraint>, usable: int, i: int)
    requires
        0 <= usable,
        0 <= i <= cs.len(),
    ensures
        0 <= unclaimed(cs, usable, i) <= usable,
        i < cs.len() ==> 0 <= base_size(cs, usable, i),
        i < cs.len() ==> base_size(cs, usable, i) + unclaimed(cs, usable, i + 1)
            <= unclaimed(cs, usable, i),
        i < cs.len() ==> unclaimed(cs, usable, i + 1) <= unclaimed(cs, usable, i),
    decreases i,
{
    if i > 0 {
        lemma_unclaimed(cs, usable, i - 1);
    }
    if i < cs.len() {
        let r = unclaimed(cs, usable, i);
        let w = wanted(cs[i], usable, r);
        match cs[i] {
            Constraint::Percentage(p) => {
                assert(usable * p >= 0) by (nonlinear_arith)
                    requires usable >= 0, p >= 0;
            },
            Constraint::Ratio(a, b) => {
                assert(usable * a >= 0) by (nonlinear_arith)
                    requires usable >= 0, a >= 0;
            },
            _ => {},
        }
        assert(unclaimed(cs, usable, i + 1) == if claims(cs[i]) {
            r - base_size(cs, usable, i)
        } else {
            r
        });
    }
}

/// The first pass leaves at least the final leftover behind every region.
proof fn lemma_unclaimed_tail(cs: Seq<Constraint>, usable: int, i: int, j: int)
    requires
        0 <= usable,
        0 <= i <= j <= cs.len(),
    ensures
        unclaimed(cs, usable, j) <= unclaimed(cs, usable, i),
    decreases j - i,
{
    if i < j {
        lemma_unclaimed(cs, usable, j - 1);
        lemma_unclaimed_tail(cs, usable, i, j - 1);
    }
}

proof fn lemma_grow_rank_mono(cs: Seq<Constraint>, i: int, j: int)
    requires
        0 <= i <= j <= cs.len(),
    ensures
        grow_rank(cs, i) <= grow_rank(cs, j),
        0 <= grow_rank(cs, i) <= i,
    decreases j - i, i,
{
    if i < j {
        lemma_grow_rank_mono(cs, i, j - 1);
    } else if i > 0 {
        lemma_grow_rank_mono(cs, i - 1, i - 1);
    }
}

/// Distinct growing regions have distinct ranks, in order.
proof fn lemma_grow_rank_strict(cs: Seq<Constraint>, i: int, j: int)
    requires
        0 <= i < j <= cs.len(),
        grows(cs[i]),
    ensures
        grow_rank(cs, i) < grow_rank(cs, j),
{
    lemma_grow_rank_mono(cs, i + 1, j);
}

/// Every region ends within the usable space.
proof fn lemma_final_size_bound(cs: Seq<Constraint>, usable: int, i: int)
    requires
        0 <= usable,
        0 <= i < cs.len(),
    ensures
        0 <= base_size(cs, usable, i),
        0 <= extra_size(cs, usable, i),
        final_size(cs, usable, i) <= usable,
        extra_size(cs, usable, i) <= unclaimed(cs, usable, cs.len() as int),
{
    let n = cs.len() as int;
    lemma_unclaimed(cs, usable, i);
    lemma_unclaimed(cs, usable, n);
    lemma_unclaimed_tail(cs, usable, i + 1, n);
    let left = unclaimed(cs, usable, n);
    let g = grow_rank(cs, n);
    if grows(cs[i]) && g > 0 {
        lemma_grow_rank_strict(cs, i, n);
        lemma_grow_rank_mono(cs, i, i);
        let q = left / g;
        let r = left % g;
        assert(left == g * q + r && 0 <= r < g && q >= 0) by (nonlinear_arith)
            requires left >= 0, g > 0, q == left / g, r == left % g;
        if grow_rank(cs, i) < r {
            assert(q + 1 <= g * q + r) by (nonlinear_arith)
                requires g >= 1, q >= 0, r >= 1;
        } else {
            assert(q <= g * q + r) by (nonlinear_arith)
                requires g >= 1, q >= 0, r >= 0;
        }
    }
}

proof fn lemma_div_mod(left: int, g: int)
    requires
        left >= 0,
        g > 0,
    ensures
        left == g * (left / g) + left % g,
        0 <= left % g < g,
        left / g >= 0,
        left >= g ==> left / g >= 1,
        left < g ==> left / g == 0 && left % g == left,
        (left / g) * g <= left,
{
    assert(left == g * (left / g) + left % g && 0 <= left % g < g && left / g >= 0) by (nonlinear_arith)
        requires left >= 0, g > 0;
    if left >= g {
        assert(left / g >= 1) by (nonlinear_arith)
            requires left >= g, g > 0;
    }
    if left < g {
        assert(left / g == 0) by (nonlinear_arith)
            requires 0 <= left < g, g > 0;
    }
    assert((left / g) * g <= left) by (nonlinear_arith)
        requires left == g * (left / g) + left % g, 0 <= left % g;
}

impl Layout {
    /// Compute the resulting rects for `area`.
    ///
    /// First pass: fixed sizes, percentages, ratios and the `Min`/`Max`
    /// baselines take their share in order, each at most what is left.
    /// Second pass: the leftover is shared among `Fill`, `Auto` and `Min`.
    #[verifier::rlimit(50)]
    pub fn split(self, area: Rect) -> (out: Vec<Rect>)
        requires
            self.fits(area),
        ensures
            out.len() == self.constraints_spec().len(),
            forall|i: int| 0 <= i < out.len() ==> #[trigger] out@[i] == self.region(area, i),
    {
        let n = self.constraints.len();
        if n == 0 {
            return Vec::new();
        }
        let inner = Rect::new(
            area.x + self.margin,
            area.y + self.margin,
            area.w.saturating_sub(self.margin * 2),
            area.h.saturating_sub(self.margin * 2),
        );
        let horizontal = self.direction == Direction::Horizontal;
        let total = if horizontal {
            inner.w
        } else {
            inner.h
        };
        let gap = self.spacing * (n as u16 - 1);
        let usable = total.saturating_sub(gap);
        let ghost cs = self.constraints@;
        let ghost u = usable as int;
        assert(inner == self.inner_spec(area));
        assert(u == self.usable_spec(area));

        // Pass 1: resolve fixed/limited constraints and Min baseline.
        let mut sizes: Vec<u16> = Vec::new();
        let mut remaining: i64 = usable as i64;
        let mut i: usize = 0;
        while i < n
            invariant
                n == cs.len(),
                cs == self.constraints@,
                0 <= u <= 65535,
                u == usable,
                i <= n,
                sizes.len() == i,
                remaining == unclaimed(cs, u, i as int),
                forall|j: int| 0 <= j < i ==> sizes@[j] == base_size(cs, u, j),
            decreases n - i,
        {
            proof {
                lemma_unclaimed(cs, u, i as int);
            }
            let c = self.constraints[i];
            proof {
                let (uu, v) = (usable as int, 0int);
                match c {
                    Constraint::Percentage(p) => {
                        assert(0 <= uu * p <= 65535 * 65535) by (nonlinear_arith)
                            requires 0 <= uu <= 65535, 0 <= p <= 65535;
                    },
                    Constraint::Ratio(a, b) => {
                        assert(0 <= uu * a <= 65535 * 0xffff_ffff) by (nonlinear_arith)
                            requires 0 <= uu <= 65535, 0 <= a <= 0xffff_ffff;
                    },
                    _ => {},
                }
            }
            let want: i64 = match c {
                Constraint::Length(v) => v as i64,
                Constraint::Percentage(p) => (usable as i64 * p as i64) / 100,
                Constraint::Ratio(a, b) => {
                    if b == 0 {
                        0
                    } else {
                        (usable as i64 * a as i64) / b as i64
                    }
                },
                Constraint::Max(v) => if (v as i64) <= remaining {
                    v as i64
                } else {
                    remaining
                },
                Constraint::Min(v) => if (v as i64) <= remaining {
                    v as i64
                } else {
                    remaining
                },
                Constraint::Fill | Constraint::Auto => 0,
            };
            assert(want == wanted(c, u, remaining as int));
            let want = if want >= 0 {
                want
            } else {
                0
            };
            let want = if want <= remaining {
                want
            } else {
                remaining
            };
            assert(want == base_size(cs, u, i as int));
            sizes.push(want as u16);
            match c {
                Constraint::Fill | Constraint::Auto => {},
                _ => {
                    remaining = remaining - want;
                },
            }
            i = i + 1;
        }
        let ghost base = sizes@;
        let ghost left = unclaimed(cs, u, n as int);
        let ghost g = grow_rank(cs, n as int);
        proof {
            lemma_unclaimed(cs, u, n as int);
            lemma_grow_rank_mono(cs, n as int, n as int);
        }

        // Pass 2: distribute any leftover space among growing constraints.
        let mut grows_v: Vec<usize> = Vec::new();
        let mut i: usize = 0;
        while i < n
            invariant
                n == cs.len(),
                cs == self.constraints@,
                i <= n,
                grows_v.len() == grow_rank(cs, i as int),
                forall|k: int|
                    0 <= k < grows_v.len() ==> #[trigger] grows_v@[k] < i && grows(cs[grows_v@[k] as int])
                        && grow_rank(cs, grows_v@[k] as int) == k,
            decreases n - i,
        {
            match self.constraints[i] {
                Constraint::Fill | Constraint::Auto | Constraint::Min(_) => {
                    grows_v.push(i);
                },
                _ => {},
            }
            i = i + 1;
        }
        assert(grows_v.len() == g);

        let mut guard: i32 = 0;
        while remaining > 0 && grows_v.len() > 0 && guard < n as i32 + 4
            invariant
                n == cs.len(),
                1 <= n <= 65535,
                0 <= u <= 65535,
                0 <= left <= u,
                left == unclaimed(cs, u, n as int),
                g == grow_rank(cs, n as int),
                grows_v.len() == g,
                forall|k: int|
                    0 <= k < grows_v.len() ==> #[trigger] grows_v@[k] < n && grows(cs[grows_v@[k] as int])
                        && grow_rank(cs, grows_v@[k] as int) == k,
                forall|j: int| 0 <= j < n ==> base[j] == base_size(cs, u, j),
                base.len() == n,
                sizes.len() == n,
                0 <= guard <= 2,
                g <= n,
                guard == 2 ==> remaining <= 0,
                guard == 0 ==> remaining == left && sizes@ == base,
                guard == 1 && remaining > 0 ==> g > 0 && left >= g && remaining == left % g
                    && forall|j: int|
                    0 <= j < n ==> #[trigger] sizes@[j] == base[j] + if grows(cs[j]) {
                        left / g
                    } else {
                        0int
                    },
                guard > 0 && remaining <= 0 ==> remaining == 0 && forall|j: int|
                    0 <= j < n ==> #[trigger] sizes@[j] == final_size(cs, u, j),
            decreases 3 - guard,
        {
            let ghost pre = sizes@;
            let ghost rem0 = remaining as int;
            let ghost phase = guard;
            guard = guard + 1;
            let gl = grows_v.len() as i64;
            let mut share = remaining / gl;
            if share < 1 {
                share = 1;
            }
            proof {
                lemma_div_mod(rem0, g);
                lemma_div_mod(left, g);
            }
            let ghost case_a = share * g <= rem0;
            assert(share == if rem0 / g >= 1 {
                rem0 / g
            } else {
                1
            });
            assert(case_a || share == 1);
            assert(!case_a ==> rem0 < g);
            assert(phase == 0 && case_a ==> share == left / g);
            assert(phase == 1 ==> !case_a && rem0 == left % g);
            // every growing region may receive this round's additions without overflow
            assert forall|j: int| 0 <= j < n && #[trigger] grows(cs[j]) implies pre[j] + (if case_a {
                share as int
            } else if grow_rank(cs, j) < rem0 {
                1int
            } else {
                0int
            }) <= final_size(cs, u, j) && final_size(cs, u, j) <= u by {
                lemma_final_size_bound(cs, u, j);
                lemma_grow_rank_strict(cs, j, n as int);
                lemma_grow_rank_mono(cs, j, j);
                assert(pre[j] == base[j] || pre[j] == base[j] + left / g);
            }
            assert forall|j: int| 0 <= j < n implies #[trigger] grow_rank(cs, j) >= 0 by {
                lemma_grow_rank_mono(cs, j, j);
            }
            let mut k: usize = 0;
            while k < grows_v.len()
                invariant
                    n == cs.len(),
                    0 <= u <= 65535,
                    grows_v.len() == g,
                    g > 0,
                    forall|kk: int|
                        0 <= kk < grows_v.len() ==> #[trigger] grows_v@[kk] < n && grows(
                            cs[grows_v@[kk] as int],
                        ) && grow_rank(cs, grows_v@[kk] as int) == kk,
                    k <= g,
                    sizes.len() == n,
                    pre.len() == n,
                    share >= 1,
                    case_a == (share * g <= rem0),
                    case_a || share == 1,
                    !case_a ==> rem0 < g,
                    0 < rem0,
                    case_a ==> remaining == rem0 - k * share,
                    !case_a ==> remaining == rem0 - min_int(k as int, rem0),
                    forall|j: int| 0 <= j < n && #[trigger] grows(cs[j]) ==> pre[j] + (if case_a {
                        share as int
                    } else if grow_rank(cs, j) < rem0 {
                        1int
                    } else {
                        0int
                    }) <= 65535,
                    forall|j: int|
                        0 <= j < n ==> #[trigger] sizes@[j] == pre[j] + if grows(cs[j]) && grow_rank(cs, j)
                            < k {
                            if case_a {
                                share as int
                            } else if grow_rank(cs, j) < rem0 {
                                1int
                            } else {
                                0int
                            }
                        } else {
                            0int
                        },
                decreases g - k,
            {
                let gi = grows_v[k];
                proof {
                    assert(k * share + share <= g * share) by (nonlinear_arith)
                        requires k < g, share >= 1;
                    assert((k + 1) * share == k * share + share) by (nonlinear_arith);
                    assert forall|j: int|
                        0 <= j < n && grows(cs[j]) && j != gi implies grow_rank(cs, j) != k by {
                        if j < gi {
                            lemma_grow_rank_strict(cs, j, gi as int);
                        } else {
                            lemma_grow_rank_strict(cs, gi as int, j);
                        }
                    }
                }
                let add = if share <= remaining {
                    share
                } else {
                    remaining
                };
                if add > 0 {
                    let cur = sizes[gi];
                    sizes.set(gi, cur + add as u16);
                    remaining = remaining - add;
                }
                k = k + 1;
            }
            proof {
                assert forall|j: int| 0 <= j < n && grows(cs[j]) implies grow_rank(cs, j) < g by {
                    lemma_grow_rank_strict(cs, j, n as int);
                }
                if case_a {
                    assert(g * share == share * g) by (nonlinear_arith);
                }
                if phase == 0 {
                    if case_a {
                        assert(share == left / g);
                        assert(remaining == left % g);
                        if remaining == 0 {
                            assert forall|j: int| 0 <= j < n implies #[trigger] sizes@[j]
                                == final_size(cs, u, j) by {}
                        }
                    } else {
                        assert(left / g == 0 && left % g == left);
                        assert forall|j: int| 0 <= j < n implies #[trigger] sizes@[j]
                            == final_size(cs, u, j) by {}
                    }
                } else {
                    assert(!case_a);
                    assert forall|j: int| 0 <= j < n implies #[trigger] sizes@[j]
                        == final_size(cs, u, j) by {}
                }
            }
        }
        proof {
            if guard == 0 || remaining > 0 {
                // either nothing was left over or nothing grows
                assert forall|j: int| 0 <= j < n implies #[trigger] sizes@[j] == final_size(
                    cs,
                    u,
                    j,
                ) by {
                    lemma_grow_rank_mono(cs, j, j);
                    if guard == 0 && g > 0 {
                        assert(left == 0);
                        assert(left / g == 0 && left % g == 0) by (nonlinear_arith)
                            requires left == 0, g > 0;
                    }
                }
            }
        }

        // Position the regions.
        let mut rects: Vec<Rect> = Vec::new();
        let mut pos: u16 = if horizontal {
            inner.x
        } else {
            inner.y
        };
        let mut i: usize = 0;
        while i < n
            invariant
                n == cs.len(),
                cs == self.constraints@,
                u == self.usable_spec(area),
                inner == self.inner_spec(area),
                horizontal == (self.direction_spec() == Direction::Horizontal),
                self.fits(area),
                i <= n,
                sizes.len() == n,
                forall|j: int| 0 <= j < n ==> #[trigger] sizes@[j] == final_size(cs, u, j),
                rects.len() == i,
                pos == self.pos_of(area, i as int),
                forall|j: int| 0 <= j < i ==> #[trigger] rects@[j] == self.region(area, j),
            decreases n - i,
        {
            let s = sizes[i];
            assert(self.pos_of(area, i as int) + self.size_of(area, i as int) + self.spacing_spec()
                <= u16::MAX);
            let r = if horizontal {
                Rect::new(pos, inner.y, s, inner.h)
            } else {
                Rect::new(inner.x, pos, inner.w, s)
            };
            rects.push(r);
            pos = pos + (s + self.spacing);
            i = i + 1;
        }
        rects
    }
}


/// Total size of the first `i` regions.
pub open spec fn sizes_total(cs: Seq<Constraint>, usable: int, i: int) -> int
    decreases i,
{
    if i <= 0 {
        0
    } else {
        sizes_total(cs, usable, i - 1) + final_size(cs, usable, i - 1)
    }
}

spec fn base_total(cs: Seq<Constraint>, usable: int, i: int) -> int
    decreases i,
{
    if i <= 0 {
        0
    } else {
        base_total(cs, usable, i - 1) + base_size(cs, usable, i - 1)
    }
}

spec fn extra_total(cs: Seq<Constraint>, usable: int, i: int) -> int
    decreases i,
{
    if i <= 0 {
        0
    } else {
        extra_total(cs, usable, i - 1) + extra_size(cs, usable, i - 1)
    }
}

proof fn lemma_totals(cs: Seq<Constraint>, usable: int, i: int)
    requires
        0 <= usable,
        0 <= i <= cs.len(),
    ensures
        base_total(cs, usable, i) == usable - unclaimed(cs, usable, i),
        sizes_total(cs, usable, i) == base_total(cs, usable, i) + extra_total(cs, usable, i),
        grow_rank(cs, cs.len() as int) > 0 ==> extra_total(cs, usable, i) == (unclaimed(
            cs,
            usable,
            cs.len() as int,
        ) / grow_rank(cs, cs.len() as int)) * grow_rank(cs, i) + min_int(
            grow_rank(cs, i),
            unclaimed(cs, usable, cs.len() as int) % grow_rank(cs, cs.len() as int),
        ),
        grow_rank(cs, cs.len() as int) == 0 ==> extra_total(cs, usable, i) == 0,
    decreases i,
{
    if i > 0 {
        lemma_totals(cs, usable, i - 1);
        lemma_unclaimed(cs, usable, i - 1);
        let n = cs.len() as int;
        let g = grow_rank(cs, n);
        let left = unclaimed(cs, usable, n);
        if g > 0 {
            let q = left / g;
            let rk = grow_rank(cs, i - 1);
            assert(q * (rk + 1) == q * rk + q) by (nonlinear_arith);
        }
    }
}

/// Regions are laid out one after another, `spacing` cells apart.
pub proof fn law_split_adjacent(l: Layout, area: Rect, i: int)
    requires
        0 <= i,
    ensures
        l.pos_of(area, i + 1) == l.pos_of(area, i) + l.size_of(area, i) + l.spacing_spec(),
        l.pos_of(area, 0) == l.start_spec(area),
{
}

/// Together the regions never take more than the usable space; when at
/// least one of them is `Fill`, `Auto` or `Min`, they take exactly all of it.
pub proof fn law_split_fills(l: Layout, area: Rect)
    ensures
        ({
            let cs = l.constraints_spec();
            let total = sizes_total(cs, l.usable_spec(area), cs.len() as int);
            &&& total <= l.usable_spec(area)
            &&& grow_rank(cs, cs.len() as int) > 0 ==> total == l.usable_spec(area)
        }),
{
    let cs = l.constraints_spec();
    let u = l.usable_spec(area);
    let n = cs.len() as int;
    lemma_totals(cs, u, n);
    lemma_unclaimed(cs, u, n);
    lemma_grow_rank_mono(cs, n, n);
    let g = grow_rank(cs, n);
    if g > 0 {
        lemma_div_mod(unclaimed(cs, u, n), g);
        assert((unclaimed(cs, u, n) / g) * g == g * (unclaimed(cs, u, n) / g)) by (nonlinear_arith);
    }
}

/// A cell lies in the intersection of two rects exactly when it lies in both.
pub proof fn law_intersect_contains(r: Rect, o: Rect, x: int, y: int)
    ensures
        r.intersect_spec(o).contains_spec(x, y) <==> (r.contains_spec(x, y) && o.contains_spec(x, y)),
{
}


proof fn lemma_unclaimed_nonneg(cs: Seq<Constraint>, usable: int, i: int)
    requires
        usable >= 0,
        0 <= i <= cs.len(),
    ensures
        unclaimed(cs, usable, i) >= 0,
        i < cs.len() ==> base_size(cs, usable, i) >= 0,
    decreases i,
{
    if i > 0 {
        lemma_unclaimed_nonneg(cs, usable, i - 1);
    }
}

/// A `Length(v)` or `Max(v)` region never gets more than `v` cells, and
/// only `Fill`, `Auto` and `Min` regions take a share of the space left
/// over: every other region keeps its first-pass size. For a split that
/// fits, the region's extent along the layout direction is that size.
pub proof fn law_split_caps(l: Layout, area: Rect, i: int)
    requires
        0 <= i < l.constraints_spec().len(),
    ensures
        l.size_of(area, i) >= 0,
        l.constraints_spec()[i] matches Constraint::Max(v) ==> l.size_of(area, i) <= v,
        l.constraints_spec()[i] matches Constraint::Length(v) ==> l.size_of(area, i) <= v,
        !(l.constraints_spec()[i] is Fill || l.constraints_spec()[i] is Auto || l.constraints_spec()[i] is Min)
            ==> l.size_of(area, i) == base_size(l.constraints_spec(), l.usable_spec(area), i),
        l.constraints_spec()[i] matches Constraint::Max(v) ==> (if l.direction_spec() == Direction::Horizontal {
            l.region(area, i).w
        } else {
            l.region(area, i).h
        }) <= v,
        l.constraints_spec()[i] matches Constraint::Length(v) ==> (if l.direction_spec() == Direction::Horizontal {
            l.region(area, i).w
        } else {
            l.region(area, i).h
        }) <= v,
{
    let cs = l.constraints_spec();
    let u = l.usable_spec(area);
    assert(u >= 0);
    lemma_unclaimed_nonneg(cs, u, i);
    lemma_unclaimed_nonneg(cs, u, cs.len() as int);
    let left = unclaimed(cs, u, cs.len() as int);
    let g = grow_rank(cs, cs.len() as int);
    if grows(cs[i]) && g > 0 {
        assert(left / g >= 0) by (nonlinear_arith)
            requires left >= 0, g > 0;
    }
    assert(l.size_of(area, i) >= 0);
}


/// Shrinking a rect that lies on the grid by `dx` columns and `dy` rows on
/// each side (when it is wide and tall enough) leaves exactly `dx` columns
/// on the left and on the right and `dy` rows above and below.
pub proof fn law_inset_margins(r: Rect, dx: int, dy: int)
    requires
        0 <= dx,
        0 <= dy,
        2 * dx <= r.w,
        2 * dy <= r.h,
        r.x + r.w <= u16::MAX,
        r.y + r.h <= u16::MAX,
    ensures
        r.inset_spec(dx, dy).x == r.x + dx,
        r.inset_spec(dx, dy).y == r.y + dy,
        r.right_spec() - r.inset_spec(dx, dy).right_spec() == dx,
        r.bottom_spec() - r.inset_spec(dx, dy).bottom_spec() == dy,
        forall|x: int, y: int| #[trigger] r.inset_spec(dx, dy).contains_spec(x, y) ==> r.contains_spec(x, y),
{
}

proof fn lemma_equal_parts(start: int, total: int, n: int, gap: int, k: int)
    requires
        n > 0,
        0 <= gap,
        gap * (n - 1) <= total,
        0 <= k < n,
    ensures
        ({
            let w = (total - gap * (n - 1)) / n;
            &&& 0 <= w
            &&& n * w + gap * (n - 1) <= total
            &&& start + k * (w + gap) + w <= start + total
            &&& start + (k + 1) * (w + gap) == start + k * (w + gap) + w + gap
        }),
{
    let w = (total - gap * (n - 1)) / n;
    let t = total - gap * (n - 1);
    assert(0 <= w) by (nonlinear_arith)
        requires t >= 0, n > 0, w == t / n;
    assert(n * w <= t) by (nonlinear_arith)
        requires t >= 0, n > 0, w == t / n;
    assert(k * (w + gap) + w <= n * w + gap * (n - 1)) by (nonlinear_arith)
        requires 0 <= k < n, w >= 0, gap >= 0;
    assert((k + 1) * (w + gap) == k * (w + gap) + w + gap) by (nonlinear_arith);
}

/// Splitting a rect on the grid into `n` equal columns with `gap` cells
/// between them: every column has the rect's rows and the same width, each
/// next column starts `gap` cells after the previous one ends, and the last
/// one ends inside the rect. Rows split the same way.
pub proof fn law_equal_columns_and_rows(r: Rect, n: int, gap: int, k: int)
    requires
        n > 0,
        0 <= gap,
        0 <= k < n,
        r.x + r.w <= u16::MAX,
        r.y + r.h <= u16::MAX,
    ensures
        gap * (n - 1) <= r.w ==> {
            let c = r.column_spec(n, gap, k);
            &&& c.y == r.y && c.h == r.h
            &&& c.w == r.column_spec(n, gap, 0).w
            &&& c.right_spec() <= r.right_spec()
            &&& k + 1 < n ==> r.column_spec(n, gap, k + 1).x == c.right_spec() + gap
            &&& r.column_spec(n, gap, 0).x == r.x
        },
        gap * (n - 1) <= r.h ==> {
            let c = r.row_spec(n, gap, k);
            &&& c.x == r.x && c.w == r.w
            &&& c.h == r.row_spec(n, gap, 0).h
            &&& c.bottom_spec() <= r.bottom_spec()
            &&& k + 1 < n ==> r.row_spec(n, gap, k + 1).y == c.bottom_spec() + gap
            &&& r.row_spec(n, gap, 0).y == r.y
        },
{
    if gap * (n - 1) <= r.w {
        lemma_equal_parts(r.x as int, r.w as int, n, gap, k);
        lemma_equal_parts(r.x as int, r.w as int, n, gap, 0);
        if k + 1 < n {
            lemma_equal_parts(r.x as int, r.w as int, n, gap, k + 1);
        }
    }
    if gap * (n - 1) <= r.h {
        lemma_equal_parts(r.y as int, r.h as int, n, gap, k);
        lemma_equal_parts(r.y as int, r.h as int, n, gap, 0);
        if k + 1 < n {
            lemma_equal_parts(r.y as int, r.h as int, n, gap, k + 1);
        }
    }
}
} // verus!
