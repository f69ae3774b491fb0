//! Low-level drawing primitives operating directly on a [`Buffer`].
//!
//! Each primitive paints a shape: a set of points with `i32` coordinates.
//! A point `(x, y)` with `x, y >= 0` lands on the cell `(x as u16, y as u16)`
//! and is drawn there when that cell lies inside both the clipping rect and
//! the buffer. A drawing made of several shapes is described by its layers:
//! each cell shows the last layer that lands on it.
use vstd::prelude::*;
use crate::border::BorderSet;
use crate::buffer::{Buffer, Cell};
use crate::layout::{Align, Point, Rect};
use crate::style::Style;

verus! {

/// A set of points.
pub type Shape = spec_fn(int, int) -> bool;

/// Point `(x, y)` lands on cell `(a, b)`.
pub open spec fn lands(x: int, y: int, a: int, b: int) -> bool {
    &&& 0 <= x && 0 <= y
    &&& x as u16 == a
    &&& y as u16 == b
}

/// Some point of `shape` lands on `(a, b)`.
pub open spec fn hits(shape: Shape, a: int, b: int) -> bool {
    exists|x: int, y: int| #[trigger] shape(x, y) && lands(x, y, a, b)
}

/// The cell of the last layer that lands on `(a, b)`, if any.
pub open spec fn top_layer(layers: Seq<(Shape, Cell)>, a: int, b: int) -> Option<Cell>
    decreases layers.len(),
{
    if layers.len() == 0 {
        None
    } else if hits(layers.last().0, a, b) {
        Some(layers.last().1)
    } else {
        top_layer(layers.drop_last(), a, b)
    }
}

/// `new` is `old` with `layers` drawn on it, clipped to `clip`.
pub open spec fn drawn(old: Buffer, new: Buffer, clip: Rect, layers: Seq<(Shape, Cell)>) -> bool {
    &&& new.wf()
    &&& new.area == old.area
    &&& forall|a: int, b: int|
        #[trigger] new.cell(a, b) == if old.in_bounds(a, b) && clip.contains_spec(a, b) && top_layer(
            layers,
            a,
            b,
        ) is Some {
            top_layer(layers, a, b).unwrap()
        } else {
            old.cell(a, b)
        }
}

/// Shapes with the same points land on the same cells.
pub open spec fn same_points(s: Shape, t: Shape) -> bool {
    forall|x: int, y: int| #[trigger] s(x, y) == t(x, y)
}

pub proof fn lemma_drawn_refl(b: Buffer, clip: Rect)
    requires
        b.wf(),
    ensures
        drawn(b, b, clip, Seq::empty()),
{
}

/// Starting a new, still empty layer changes nothing.
proof fn lemma_drawn_new_layer(old: Buffer, mid: Buffer, clip: Rect, layers: Seq<(Shape, Cell)>, c: Cell)
    requires
        drawn(old, mid, clip, layers),
    ensures
        drawn(old, mid, clip, layers.push((no_points(), c))),
{
    let l2 = layers.push((no_points(), c));
    assert(l2.drop_last() =~= layers);
    assert forall|a: int, b: int| top_layer(l2, a, b) == top_layer(layers, a, b) by {
        assert(!hits(l2.last().0, a, b));
    }
}

/// Drawing point `(x, y)` with the cell of the last layer grows that layer by the point.
proof fn lemma_drawn_put(
    old: Buffer,
    mid: Buffer,
    new: Buffer,
    clip: Rect,
    layers: Seq<(Shape, Cell)>,
    shape: Shape,
    x: int,
    y: int,
)
    requires
        layers.len() > 0,
        drawn(old, mid, clip, layers),
        new.wf(),
        new.area == mid.area,
        forall|a: int, b: int|
            #[trigger] new.cell(a, b) == if lands(x, y, a, b) && mid.in_bounds(a, b) && clip.contains_spec(
                a,
                b,
            ) {
                layers.last().1
            } else {
                mid.cell(a, b)
            },
        forall|px: int, py: int| #[trigger] shape(px, py) == (layers.last().0(px, py) || (px == x && py == y)),
    ensures
        drawn(old, new, clip, layers.update(layers.len() - 1, (shape, layers.last().1))),
{
    let l2 = layers.update(layers.len() - 1, (shape, layers.last().1));
    assert(l2.drop_last() =~= layers.drop_last());
    assert forall|a: int, b: int| #[trigger] new.cell(a, b) == if old.in_bounds(a, b) && clip.contains_spec(
        a,
        b,
    ) && top_layer(l2, a, b) is Some {
        top_layer(l2, a, b).unwrap()
    } else {
        old.cell(a, b)
    } by {
        if lands(x, y, a, b) {
            assert(shape(x, y));
            assert(hits(shape, a, b));
        } else {
            if hits(shape, a, b) {
                let (px, py) = choose|px: int, py: int| #[trigger] shape(px, py) && lands(px, py, a, b);
                assert(layers.last().0(px, py));
                assert(hits(layers.last().0, a, b));
            }
            if hits(layers.last().0, a, b) {
                let (px, py) = choose|px: int, py: int|
                    #[trigger] layers.last().0(px, py) && lands(px, py, a, b);
                assert(shape(px, py));
            }
        }
    }
}

/// Replacing the shape of the last layer by one with the same points changes nothing.
proof fn lemma_drawn_same_points(
    old: Buffer,
    new: Buffer,
    clip: Rect,
    layers: Seq<(Shape, Cell)>,
    shape: Shape,
)
    requires
        layers.len() > 0,
        drawn(old, new, clip, layers),
        same_points(layers.last().0, shape),
    ensures
        drawn(old, new, clip, layers.update(layers.len() - 1, (shape, layers.last().1))),
{
    let l2 = layers.update(layers.len() - 1, (shape, layers.last().1));
    assert(l2.drop_last() =~= layers.drop_last());
    assert forall|a: int, b: int| top_layer(l2, a, b) == top_layer(layers, a, b) by {
        if hits(shape, a, b) {
            let (px, py) = choose|px: int, py: int| #[trigger] shape(px, py) && lands(px, py, a, b);
            assert(layers.last().0(px, py));
        }
        if hits(layers.last().0, a, b) {
            let (px, py) = choose|px: int, py: int|
                #[trigger] layers.last().0(px, py) && lands(px, py, a, b);
            assert(shape(px, py));
        }
    }
}

/// The points of a horizontal run from `x` over `len` more cells (either way).
pub open spec fn hline_shape(x: int, y: int, len: int) -> Shape {
    |px: int, py: int| py == y && min2(x, x + len) <= px <= max2(x, x + len)
}

/// The points of a vertical run from `y` over `len` more cells (either way).
pub open spec fn vline_shape(x: int, y: int, len: int) -> Shape {
    |px: int, py: int| px == x && min2(y, y + len) <= py <= max2(y, y + len)
}

pub open spec fn min2(a: int, b: int) -> int {
    if a <= b {
        a
    } else {
        b
    }
}

pub open spec fn max2(a: int, b: int) -> int {
    if a >= b {
        a
    } else {
        b
    }
}

/// `shape` plus the points `(lo..=hi, y)`.
pub open spec fn with_hrun(shape: Shape, lo: int, hi: int, y: int) -> Shape {
    |px: int, py: int| shape(px, py) || (py == y && lo <= px <= hi)
}

/// `shape` plus the points `(x, lo..=hi)`.
pub open spec fn with_vrun(shape: Shape, x: int, lo: int, hi: int) -> Shape {
    |px: int, py: int| shape(px, py) || (px == x && lo <= py <= hi)
}

/// `shape` plus the point `(x, y)`.
pub open spec fn with_point(shape: Shape, x: int, y: int) -> Shape {
    |px: int, py: int| shape(px, py) || (px == x && py == y)
}

/// No points at all.
pub open spec fn no_points() -> Shape {
    |px: int, py: int| false
}

/// The single point `(x, y)`.
pub open spec fn point_shape(x: int, y: int) -> Shape {
    |px: int, py: int| px == x && py == y
}

/// The points of the cells of `r`.
pub open spec fn rect_shape(r: Rect) -> Shape {
    |px: int, py: int| r.x <= px < r.right_spec() && r.y <= py < r.bottom_spec()
}

/// Draw into a [`Buffer`] with pixel-less, cell-based primitives.
pub struct Canvas<'a> {
    /// The buffer being drawn into.
    pub buf: &'a mut Buffer,
    /// Drawing is restricted to this rect.
    pub clip: Rect,
}

impl<'a> Canvas<'a> {
    /// The buffer being drawn into.
    pub open spec fn target(&self) -> &'a mut Buffer {
        self.buf
    }

    /// Drawing is restricted to this rect.
    pub open spec fn clip_rect(&self) -> Rect {
        self.clip
    }

    /// `after` is `before` with `layers` drawn into its buffer.
    pub open spec fn draws(before: &Canvas<'a>, after: &Canvas<'a>, layers: Seq<(Shape, Cell)>) -> bool {
        &&& after.clip_rect() == before.clip_rect()
        &&& drawn(*before.target(), *after.target(), before.clip_rect(), layers)
    }

    pub fn new(buf: &'a mut Buffer) -> (c: Canvas<'a>)
        ensures
            *c.target() == *old(buf),
            *final(c.target()) == *final(buf),
            c.clip_rect() == old(buf).area,
    {
        let clip = buf.area;
        Canvas { buf, clip }
    }

    /// Restrict drawing to a clipping rect.
    pub fn clip(self, r: Rect) -> (c: Canvas<'a>)
        ensures
            *c.target() == *self.target(),
            *final(c.target()) == *final(self.target()),
            c.clip_rect() == self.clip_rect().intersect_spec(r),
    {
        let clip = self.clip.intersect(r);
        Canvas { buf: self.buf, clip }
    }

    /// Draw `ch` at `(x, y)` if that lands inside the clip rect.
    fn put(&mut self, x: i32, y: i32, ch: char, s: Style)
        requires
            old(self).target().wf(),
        ensures
            final(self).clip_rect() == old(self).clip_rect(),
            *final(final(self).target()) == *final(old(self).target()),
            final(self).target().wf(),
            final(self).target().area == old(self).target().area,
            forall|a: int, b: int|
                #[trigger] final(self).target().cell(a, b) == if lands(x as int, y as int, a, b)
                    && old(self).target().in_bounds(a, b) && old(self).clip_rect().contains_spec(
                    a,
                    b,
                ) {
                    Cell { ch, style: s }
                } else {
                    old(self).target().cell(a, b)
                },
    {
        if x >= 0 && y >= 0 {
            let ux = x as u16;
            let uy = y as u16;
            if self.clip.contains(ux, uy) {
                self.buf.put(ux, uy, ch, s);
            }
        }
    }

    /// A single dot.
    pub fn dot(&mut self, x: i32, y: i32, ch: char, s: Style)
        requires
            old(self).target().wf(),
        ensures
            *final(final(self).target()) == *final(old(self).target()),
            Canvas::draws(old(self), final(self), seq![(point_shape(x as int, y as int), Cell { ch, style: s })]),
    {
        let ghost before = *self.target();
        self.put(x, y, ch, s);
        proof {
            let c = Cell { ch, style: s };
            lemma_drawn_refl(before, self.clip);
            lemma_drawn_new_layer(before, before, self.clip, Seq::empty(), c);
            lemma_drawn_put(
                before,
                before,
                *self.target(),
                self.clip,
                seq![(no_points(), c)],
                point_shape(x as int, y as int),
                x as int,
                y as int,
            );
            assert(seq![(no_points(), c)].update(0, (point_shape(x as int, y as int), c))
                =~= seq![(point_shape(x as int, y as int), c)]);
        }
    }
}


impl<'a> Canvas<'a> {
    /// Adds the points `(lo..=hi, y)` to the last layer.
    fn hrun(
        &mut self,
        lo: i32,
        hi: i32,
        y: i32,
        c: Cell,
        Ghost(before): Ghost<Buffer>,
        Ghost(layers): Ghost<Seq<(Shape, Cell)>>,
        Ghost(shape): Ghost<Shape>,
    )
        requires
            drawn(before, *old(self).target(), old(self).clip_rect(), layers.push((shape, c))),
        ensures
            final(self).clip_rect() == old(self).clip_rect(),
            *final(final(self).target()) == *final(old(self).target()),
            drawn(
                before,
                *final(self).target(),
                old(self).clip_rect(),
                layers.push((with_hrun(shape, lo as int, hi as int, y as int), c)),
            ),
    {
        let ghost clip = self.clip;
        let ghost mut cur: Shape = shape;
        if lo <= hi {
            let mut cx = lo;
            loop
                invariant_except_break
                    same_points(cur, |px: int, py: int| shape(px, py) || (py == y && lo <= px < cx)),
                invariant
                    lo <= cx <= hi,
                    self.clip == clip,
                    *final(self.target()) == *final(old(self).target()),
                    drawn(before, *self.target(), clip, layers.push((cur, c))),
                ensures
                    self.clip == clip,
                    *final(self.target()) == *final(old(self).target()),
                    same_points(cur, with_hrun(shape, lo as int, hi as int, y as int)),
                    drawn(before, *self.target(), clip, layers.push((cur, c))),
                decreases hi - cx,
            {
                let ghost mid = *self.target();
                self.put(cx, y, c.ch, c.style);
                proof {
                    let next: Shape = |px: int, py: int| cur(px, py) || (px == cx && py == y);
                    lemma_drawn_put(
                        before,
                        mid,
                        *self.target(),
                        clip,
                        layers.push((cur, c)),
                        next,
                        cx as int,
                        y as int,
                    );
                    assert(layers.push((cur, c)).update(layers.len() as int, (next, c)) =~= layers.push(
                        (next, c),
                    ));
                    cur = next;
                }
                if cx == hi {
                    break ;
                }
                cx = cx + 1;
            }
        }
        proof {
            let t = with_hrun(shape, lo as int, hi as int, y as int);
            if lo > hi {
                assert(same_points(cur, t));
            }
            lemma_drawn_same_points(before, *self.target(), clip, layers.push((cur, c)), t);
            assert(layers.push((cur, c)).update(layers.len() as int, (t, c)) =~= layers.push((t, c)));
        }
    }

    /// Adds the points `(x, lo..=hi)` to the last layer.
    fn vrun(
        &mut self,
        x: i32,
        lo: i32,
        hi: i32,
        c: Cell,
        Ghost(before): Ghost<Buffer>,
        Ghost(layers): Ghost<Seq<(Shape, Cell)>>,
        Ghost(shape): Ghost<Shape>,
    )
        requires
            drawn(before, *old(self).target(), old(self).clip_rect(), layers.push((shape, c))),
        ensures
            final(self).clip_rect() == old(self).clip_rect(),
            *final(final(self).target()) == *final(old(self).target()),
            drawn(
                before,
                *final(self).target(),
                old(self).clip_rect(),
                layers.push((with_vrun(shape, x as int, lo as int, hi as int), c)),
            ),
    {
        let ghost clip = self.clip;
        let ghost mut cur: Shape = shape;
        if lo <= hi {
            let mut cy = lo;
            loop
                invariant_except_break
                    same_points(cur, |px: int, py: int| shape(px, py) || (px == x && lo <= py < cy)),
                invariant
                    lo <= cy <= hi,
                    self.clip == clip,
                    *final(self.target()) == *final(old(self).target()),
                    drawn(before, *self.target(), clip, layers.push((cur, c))),
                ensures
                    self.clip == clip,
                    *final(self.target()) == *final(old(self).target()),
                    same_points(cur, with_vrun(shape, x as int, lo as int, hi as int)),
                    drawn(before, *self.target(), clip, layers.push((cur, c))),
                decreases hi - cy,
            {
                let ghost mid = *self.target();
                self.put(x, cy, c.ch, c.style);
                proof {
                    let next: Shape = |px: int, py: int| cur(px, py) || (px == x && py == cy);
                    lemma_drawn_put(
                        before,
                        mid,
                        *self.target(),
                        clip,
                        layers.push((cur, c)),
                        next,
                        x as int,
                        cy as int,
                    );
                    assert(layers.push((cur, c)).update(layers.len() as int, (next, c)) =~= layers.push(
                        (next, c),
                    ));
                    cur = next;
                }
                if cy == hi {
                    break ;
                }
                cy = cy + 1;
            }
        }
        proof {
            let t = with_vrun(shape, x as int, lo as int, hi as int);
            if lo > hi {
                assert(same_points(cur, t));
            }
            lemma_drawn_same_points(before, *self.target(), clip, layers.push((cur, c)), t);
            assert(layers.push((cur, c)).update(layers.len() as int, (t, c)) =~= layers.push((t, c)));
        }
    }

    /// A horizontal line.
    pub fn hline(&mut self, x: i32, y: i32, len: i32, ch: char, s: Style)
        requires
            old(self).target().wf(),
            i32::MIN <= x + len <= i32::MAX,
        ensures
            *final(final(self).target()) == *final(old(self).target()),
            Canvas::draws(
                old(self),
                final(self),
                seq![(hline_shape(x as int, y as int, len as int), Cell { ch, style: s })],
            ),
    {
        let (a, b) = if len < 0 {
            (x + len, x)
        } else {
            (x, x + len)
        };
        let c = Cell::new(ch, s);
        let ghost before = *self.target();
        proof {
            lemma_drawn_refl(before, self.clip);
            lemma_drawn_new_layer(before, before, self.clip, Seq::empty(), c);
        }
        self.hrun(a, b, y, c, Ghost(before), Ghost(Seq::empty()), Ghost(no_points()));
        proof {
            let t = with_hrun(no_points(), a as int, b as int, y as int);
            let l = Seq::<(Shape, Cell)>::empty().push((t, c));
            lemma_drawn_same_points(before, *self.target(), self.clip, l, hline_shape(x as int, y as int, len as int));
            assert(l.update(0, (hline_shape(x as int, y as int, len as int), c)) =~= seq![
                (hline_shape(x as int, y as int, len as int), c),
            ]);
        }
    }

    /// A vertical line.
    pub fn vline(&mut self, x: i32, y: i32, len: i32, ch: char, s: Style)
        requires
            old(self).target().wf(),
            i32::MIN <= y + len <= i32::MAX,
        ensures
            *final(final(self).target()) == *final(old(self).target()),
            Canvas::draws(
                old(self),
                final(self),
                seq![(vline_shape(x as int, y as int, len as int), Cell { ch, style: s })],
            ),
    {
        let (a, b) = if len < 0 {
            (y + len, y)
        } else {
            (y, y + len)
        };
        let c = Cell::new(ch, s);
        let ghost before = *self.target();
        proof {
            lemma_drawn_refl(before, self.clip);
            lemma_drawn_new_layer(before, before, self.clip, Seq::empty(), c);
        }
        self.vrun(x, a, b, c, Ghost(before), Ghost(Seq::empty()), Ghost(no_points()));
        proof {
            let t = with_vrun(no_points(), x as int, a as int, b as int);
            let l = Seq::<(Shape, Cell)>::empty().push((t, c));
            lemma_drawn_same_points(before, *self.target(), self.clip, l, vline_shape(x as int, y as int, len as int));
            assert(l.update(0, (vline_shape(x as int, y as int, len as int), c)) =~= seq![
                (vline_shape(x as int, y as int, len as int), c),
            ]);
        }
    }
}


/// Drawing `layers` and then `more` is drawing `layers + more`.
pub proof fn lemma_drawn_compose(
    b0: Buffer,
    b1: Buffer,
    b2: Buffer,
    clip: Rect,
    layers: Seq<(Shape, Cell)>,
    more: Seq<(Shape, Cell)>,
)
    requires
        drawn(b0, b1, clip, layers),
        drawn(b1, b2, clip, more),
    ensures
        drawn(b0, b2, clip, layers + more),
{
    assert forall|a: int, b: int| #[trigger] top_layer(layers + more, a, b) == match top_layer(more, a, b) {
        Some(c) => Some(c),
        None => top_layer(layers, a, b),
    } by {
        lemma_top_layer_concat(layers, more, a, b);
    }
}

pub proof fn lemma_top_layer_concat(layers: Seq<(Shape, Cell)>, more: Seq<(Shape, Cell)>, a: int, b: int)
    ensures
        top_layer(layers + more, a, b) == match top_layer(more, a, b) {
            Some(c) => Some(c),
            None => top_layer(layers, a, b),
        },
    decreases more.len(),
{
    if more.len() == 0 {
        assert(layers + more =~= layers);
    } else {
        assert((layers + more).drop_last() =~= layers + more.drop_last());
        assert((layers + more).last() == more.last());
        lemma_top_layer_concat(layers, more.drop_last(), a, b);
    }
}

/// The layers of a border drawn around `r`: the edges, then the corners
/// (the top ones with the set's curved glyphs).
pub open spec fn border_layers(r: Rect, b: BorderSet, s: Style) -> Seq<(Shape, Cell)> {
    let (x0, y0) = (r.x as int, r.y as int);
    let (x1, y1) = (r.right_spec() - 1, r.bottom_spec() - 1);
    let (w, h) = (r.w as int, r.h as int);
    if w == 0 || h == 0 {
        seq![]
    } else {
        seq![
            (hline_shape(x0 + 1, y0, w - 2), Cell { ch: b.horizontal, style: s }),
            (hline_shape(x0 + 1, y1, w - 2), Cell { ch: b.horizontal, style: s }),
            (vline_shape(x0, y0 + 1, h - 2), Cell { ch: b.vertical, style: s }),
            (vline_shape(x1, y0 + 1, h - 2), Cell { ch: b.vertical, style: s }),
            (point_shape(x0, y0), Cell { ch: b.top_left_curve, style: s }),
            (point_shape(x1, y0), Cell { ch: b.top_right_curve, style: s }),
            (point_shape(x0, y1), Cell { ch: b.bottom_left, style: s }),
            (point_shape(x1, y1), Cell { ch: b.bottom_right, style: s }),
        ]
    }
}

/// The points of a filled disc of radius `rad` around `(cx, cy)`.
pub open spec fn disc_shape(cx: int, cy: int, rad: int) -> Shape {
    |px: int, py: int|
        -rad <= px - cx <= rad && -rad <= py - cy <= rad && (px - cx) * (px - cx) + (py - cy) * (
        py - cy) <= rad * rad
}

impl<'a> Canvas<'a> {
    /// Stroke a rectangle outline.
    pub fn rect(&mut self, r: Rect, ch: char, s: Style)
        requires
            old(self).target().wf(),
        ensures
            *final(final(self).target()) == *final(old(self).target()),
            ({
                let c = Cell { ch, style: s };
                let (x0, y0) = (r.x as int, r.y as int);
                let (x1, y1) = (r.right_spec() - 1, r.bottom_spec() - 1);
                let (w, h) = (r.w as int, r.h as int);
                Canvas::draws(
                    old(self),
                    final(self),
                    if w == 0 || h == 0 {
                        seq![]
                    } else {
                        seq![
                            (hline_shape(x0, y0, w - 1), c),
                            (hline_shape(x0, y1, w - 1), c),
                            (vline_shape(x0, y0, h - 1), c),
                            (vline_shape(x1, y0, h - 1), c),
                            (point_shape(x0, y0), c),
                            (point_shape(x1, y0), c),
                            (point_shape(x0, y1), c),
                            (point_shape(x1, y1), c),
                        ]
                    },
                )
            }),
    {
        let x0 = r.x as i32;
        let y0 = r.y as i32;
        let x1 = (r.right() as i32) - 1;
        let y1 = (r.bottom() as i32) - 1;
        let ghost b0 = *self.target();
        if r.w == 0 || r.h == 0 {
            proof {
                lemma_drawn_refl(b0, self.clip);
            }
            return ;
        }
        let w = r.w as i32;
        let h = r.h as i32;
        self.hline(x0, y0, w - 1, ch, s);
        let ghost b1 = *self.target();
        self.hline(x0, y1, w - 1, ch, s);
        let ghost b2 = *self.target();
        self.vline(x0, y0, h - 1, ch, s);
        let ghost b3 = *self.target();
        self.vline(x1, y0, h - 1, ch, s);
        let ghost b4 = *self.target();
        self.dot(x0, y0, ch, s);
        let ghost b5 = *self.target();
        self.dot(x1, y0, ch, s);
        let ghost b6 = *self.target();
        self.dot(x0, y1, ch, s);
        let ghost b7 = *self.target();
        self.dot(x1, y1, ch, s);
        proof {
            let c = Cell { ch, style: s };
            let clip = self.clip;
            let l1 = seq![(hline_shape(x0 as int, y0 as int, w - 1), c)];
            let l2 = seq![(hline_shape(x0 as int, y1 as int, w - 1), c)];
            let l3 = seq![(vline_shape(x0 as int, y0 as int, h - 1), c)];
            let l4 = seq![(vline_shape(x1 as int, y0 as int, h - 1), c)];
            let l5 = seq![(point_shape(x0 as int, y0 as int), c)];
            let l6 = seq![(point_shape(x1 as int, y0 as int), c)];
            let l7 = seq![(point_shape(x0 as int, y1 as int), c)];
            let l8 = seq![(point_shape(x1 as int, y1 as int), c)];
            lemma_drawn_compose(b0, b1, b2, clip, l1, l2);
            lemma_drawn_compose(b0, b2, b3, clip, l1 + l2, l3);
            lemma_drawn_compose(b0, b3, b4, clip, l1 + l2 + l3, l4);
            lemma_drawn_compose(b0, b4, b5, clip, l1 + l2 + l3 + l4, l5);
            lemma_drawn_compose(b0, b5, b6, clip, l1 + l2 + l3 + l4 + l5, l6);
            lemma_drawn_compose(b0, b6, b7, clip, l1 + l2 + l3 + l4 + l5 + l6, l7);
            lemma_drawn_compose(b0, b7, *self.target(), clip, l1 + l2 + l3 + l4 + l5 + l6 + l7, l8);
            assert(l1 + l2 + l3 + l4 + l5 + l6 + l7 + l8 =~= seq![
                (hline_shape(x0 as int, y0 as int, w - 1), c),
                (hline_shape(x0 as int, y1 as int, w - 1), c),
                (vline_shape(x0 as int, y0 as int, h - 1), c),
                (vline_shape(x1 as int, y0 as int, h - 1), c),
                (point_shape(x0 as int, y0 as int), c),
                (point_shape(x1 as int, y0 as int), c),
                (point_shape(x0 as int, y1 as int), c),
                (point_shape(x1 as int, y1 as int), c),
            ]);
        }
    }

    /// A rectangle drawn with a [`BorderSet`]: the edges, then the corners
    /// (the top ones with the set's curved glyphs).
    pub fn border(&mut self, r: Rect, b: BorderSet, s: Style)
        requires
            old(self).target().wf(),
        ensures
            *final(final(self).target()) == *final(old(self).target()),
            Canvas::draws(old(self), final(self), border_layers(r, b, s)),
    {
        let ghost b0 = *self.target();
        if r.w == 0 || r.h == 0 {
            proof {
                lemma_drawn_refl(b0, self.clip);
            }
            return ;
        }
        let x0 = r.x as i32;
        let y0 = r.y as i32;
        let x1 = (r.right() as i32) - 1;
        let y1 = (r.bottom() as i32) - 1;
        let w = r.w as i32;
        let h = r.h as i32;
        self.hline(x0 + 1, y0, w - 2, b.horizontal, s);
        let ghost b1 = *self.target();
        self.hline(x0 + 1, y1, w - 2, b.horizontal, s);
        let ghost b2 = *self.target();
        self.vline(x0, y0 + 1, h - 2, b.vertical, s);
        let ghost b3 = *self.target();
        self.vline(x1, y0 + 1, h - 2, b.vertical, s);
        let ghost b4 = *self.target();
        self.dot(x0, y0, b.top_left_curve, s);
        let ghost b5 = *self.target();
        self.dot(x1, y0, b.top_right_curve, s);
        let ghost b6 = *self.target();
        self.dot(x0, y1, b.bottom_left, s);
        let ghost b7 = *self.target();
        self.dot(x1, y1, b.bottom_right, s);
        proof {
            let clip = self.clip;
            let l1 = seq![(hline_shape(x0 + 1, y0 as int, w - 2), Cell { ch: b.horizontal, style: s })];
            let l2 = seq![(hline_shape(x0 + 1, y1 as int, w - 2), Cell { ch: b.horizontal, style: s })];
            let l3 = seq![(vline_shape(x0 as int, y0 + 1, h - 2), Cell { ch: b.vertical, style: s })];
            let l4 = seq![(vline_shape(x1 as int, y0 + 1, h - 2), Cell { ch: b.vertical, style: s })];
            let l5 = seq![(point_shape(x0 as int, y0 as int), Cell { ch: b.top_left_curve, style: s })];
            let l6 = seq![(point_shape(x1 as int, y0 as int), Cell { ch: b.top_right_curve, style: s })];
            let l7 = seq![(point_shape(x0 as int, y1 as int), Cell { ch: b.bottom_left, style: s })];
            let l8 = seq![(point_shape(x1 as int, y1 as int), Cell { ch: b.bottom_right, style: s })];
            lemma_drawn_compose(b0, b1, b2, clip, l1, l2);
            lemma_drawn_compose(b0, b2, b3, clip, l1 + l2, l3);
            lemma_drawn_compose(b0, b3, b4, clip, l1 + l2 + l3, l4);
            lemma_drawn_compose(b0, b4, b5, clip, l1 + l2 + l3 + l4, l5);
            lemma_drawn_compose(b0, b5, b6, clip, l1 + l2 + l3 + l4 + l5, l6);
            lemma_drawn_compose(b0, b6, b7, clip, l1 + l2 + l3 + l4 + l5 + l6, l7);
            lemma_drawn_compose(b0, b7, *self.target(), clip, l1 + l2 + l3 + l4 + l5 + l6 + l7, l8);
            assert(l1 + l2 + l3 + l4 + l5 + l6 + l7 + l8 =~= seq![
                (hline_shape(x0 + 1, y0 as int, w - 2), Cell { ch: b.horizontal, style: s }),
                (hline_shape(x0 + 1, y1 as int, w - 2), Cell { ch: b.horizontal, style: s }),
                (vline_shape(x0 as int, y0 + 1, h - 2), Cell { ch: b.vertical, style: s }),
                (vline_shape(x1 as int, y0 + 1, h - 2), Cell { ch: b.vertical, style: s }),
                (point_shape(x0 as int, y0 as int), Cell { ch: b.top_left_curve, style: s }),
                (point_shape(x1 as int, y0 as int), Cell { ch: b.top_right_curve, style: s }),
                (point_shape(x0 as int, y1 as int), Cell { ch: b.bottom_left, style: s }),
                (point_shape(x1 as int, y1 as int), Cell { ch: b.bottom_right, style: s }),
            ]);
        }
    }

    /// Filled rectangle.
    pub fn fill_rect(&mut self, r: Rect, ch: char, s: Style)
        requires
            old(self).target().wf(),
        ensures
            *final(final(self).target()) == *final(old(self).target()),
            Canvas::draws(old(self), final(self), seq![(rect_shape(r), Cell { ch, style: s })]),
    {
        let c = Cell::new(ch, s);
        let ghost before = *self.target();
        let ghost clip = self.clip;
        proof {
            lemma_drawn_refl(before, self.clip);
            lemma_drawn_new_layer(before, before, self.clip, Seq::empty(), c);
        }
        let ghost mut cur: Shape = no_points();
        let bottom = r.bottom();
        let right = r.right();
        let mut y = r.y;
        while y < bottom
            invariant
                r.y <= y <= bottom,
                bottom == r.bottom_spec(),
                right == r.right_spec(),
                self.clip == clip,
                *final(self.target()) == *final(old(self).target()),
                same_points(
                    cur,
                    |px: int, py: int| r.x <= px < r.right_spec() && r.y <= py < y,
                ),
                drawn(before, *self.target(), clip, Seq::<(Shape, Cell)>::empty().push((cur, c))),
            decreases bottom - y,
        {
            if r.x < right {
                self.hrun(
                    r.x as i32,
                    (right - 1) as i32,
                    y as i32,
                    c,
                    Ghost(before),
                    Ghost(Seq::empty()),
                    Ghost(cur),
                );
                proof {
                    cur = with_hrun(cur, r.x as int, right - 1, y as int);
                }
            }
            y = y + 1;
        }
        proof {
            lemma_drawn_same_points(before, *self.target(), clip, Seq::empty().push((cur, c)), rect_shape(r));
            assert(Seq::<(Shape, Cell)>::empty().push((cur, c)).update(0, (rect_shape(r), c)) =~= seq![
                (rect_shape(r), c),
            ]);
        }
    }

    /// A filled circle.
    pub fn disc(&mut self, cx: i32, cy: i32, rad: i32, ch: char, s: Style)
        requires
            old(self).target().wf(),
            rad > i32::MIN,
            rad >= 0 ==> rad <= 32767 && i32::MIN <= cx - rad && cx + rad <= i32::MAX && i32::MIN
                <= cy - rad && cy + rad <= i32::MAX,
        ensures
            *final(final(self).target()) == *final(old(self).target()),
            Canvas::draws(
                old(self),
                final(self),
                seq![(disc_shape(cx as int, cy as int, rad as int), Cell { ch, style: s })],
            ),
    {
        let c = Cell::new(ch, s);
        let ghost before = *self.target();
        let ghost clip = self.clip;
        proof {
            lemma_drawn_refl(before, self.clip);
            lemma_drawn_new_layer(before, before, self.clip, Seq::empty(), c);
        }
        let ghost mut cur: Shape = no_points();
        let ghost (gx, gy, gr) = (cx as int, cy as int, rad as int);
        if rad >= 0 {
            let mut y = -rad;
            while y <= rad
                invariant
                    0 <= rad <= 32767,
                    c == (Cell { ch, style: s }),
                    -rad <= y <= rad + 1,
                    gx == cx && gy == cy && gr == rad,
                    i32::MIN <= cx - rad && cx + rad <= i32::MAX && i32::MIN <= cy - rad && cy + rad
                        <= i32::MAX,
                    self.clip == clip,
                    *final(self.target()) == *final(old(self).target()),
                    same_points(
                        cur,
                        |px: int, py: int| disc_shape(gx, gy, gr)(px, py) && py - gy < y,
                    ),
                    drawn(before, *self.target(), clip, Seq::<(Shape, Cell)>::empty().push((cur, c))),
                decreases rad + 1 - y,
            {
                let mut x = -rad;
                while x <= rad
                    invariant
                        0 <= rad <= 32767,
                        c == (Cell { ch, style: s }),
                        -rad <= y <= rad,
                        -rad <= x <= rad + 1,
                        gx == cx && gy == cy && gr == rad,
                        i32::MIN <= cx - rad && cx + rad <= i32::MAX && i32::MIN <= cy - rad && cy
                            + rad <= i32::MAX,
                        self.clip == clip,
                        *final(self.target()) == *final(old(self).target()),
                        same_points(
                            cur,
                            |px: int, py: int|
                                disc_shape(gx, gy, gr)(px, py) && (py - gy < y || (py - gy == y && px
                                    - gx < x)),
                        ),
                        drawn(
                            before,
                            *self.target(),
                            clip,
                            Seq::<(Shape, Cell)>::empty().push((cur, c)),
                        ),
                    decreases rad + 1 - x,
                {
                    proof {
                        assert(0 <= x * x <= rad * rad && 0 <= y * y <= rad * rad) by (nonlinear_arith)
                            requires -rad <= x <= rad, -rad <= y <= rad, rad >= 0;
                        assert(rad * rad <= 32767 * 32767) by (nonlinear_arith)
                            requires 0 <= rad <= 32767;
                    }
                    if x * x + y * y <= rad * rad {
                        let ghost mid = *self.target();
                        self.put(cx + x, cy + y, ch, s);
                        proof {
                            let next = with_point(cur, (cx + x) as int, (cy + y) as int);
                            lemma_drawn_put(
                                before,
                                mid,
                                *self.target(),
                                clip,
                                Seq::empty().push((cur, c)),
                                next,
                                (cx + x) as int,
                                (cy + y) as int,
                            );
                            assert(Seq::<(Shape, Cell)>::empty().push((cur, c)).update(0, (next, c))
                                =~= Seq::<(Shape, Cell)>::empty().push((next, c)));
                            cur = next;
                        }
                    }
                    x = x + 1;
                }
                y = y + 1;
            }
        }
        proof {
            lemma_drawn_same_points(
                before,
                *self.target(),
                clip,
                Seq::empty().push((cur, c)),
                disc_shape(gx, gy, gr),
            );
            assert(Seq::<(Shape, Cell)>::empty().push((cur, c)).update(0, (disc_shape(gx, gy, gr), c))
                =~= seq![(disc_shape(gx, gy, gr), c)]);
        }
    }
}


impl<'a> Canvas<'a> {
    /// Render text at `(x, y)` with alignment inside `width` (not clipped
    /// to the clipping rect, only to the buffer).
    pub fn text(&mut self, x: i32, y: i32, s: &str, align: Align, width: u16, st: Style)
        requires
            old(self).target().wf(),
            x + align.h_offset_spec((s@.len() % 65536) as int, width as int) <= i32::MAX,
        ensures
            *final(final(self).target()) == *final(old(self).target()),
            final(self).clip_rect() == old(self).clip_rect(),
            final(self).target().wf(),
            final(self).target().area == old(self).target().area,
            forall|a: int, b: int|
                #[trigger] final(self).target().cell(a, b) == old(self).target().text_cell(
                    (x + align.h_offset_spec((s@.len() % 65536) as int, width as int)) as u16 as int,
                    y as u16 as int,
                    s@,
                    st,
                    a,
                    b,
                ),
    {
        let n = crate::ansi::str_chars(s).len();
        let len = n as u16;
        assert(len == n % 65536) by (bit_vector)
            requires len == n as u16;
        let off = align.h_offset(len, width);
        self.buf.write_str((x + off as i32) as u16, y as u16, s, st);
    }
}

/// `|a|`.
pub open spec fn abs_int(a: int) -> int {
    if a < 0 {
        -a
    } else {
        a
    }
}

/// The unit step from `a` toward `b` (`-1` when `b` is not above `a`).
pub open spec fn step_toward(a: int, b: int) -> int {
    if a < b {
        1
    } else {
        -1
    }
}

/// The position and error term after `k` steps of Bresenham's walk from
/// `(x0, y0)` toward `(x1, y1)`.
pub open spec fn walk(x0: int, y0: int, x1: int, y1: int, k: nat) -> (int, int, int)
    decreases k,
{
    let dx = abs_int(x1 - x0);
    let dy = -abs_int(y1 - y0);
    if k == 0 {
        (x0, y0, dx + dy)
    } else {
        let (x, y, err) = walk(x0, y0, x1, y1, (k - 1) as nat);
        let e2 = 2 * err;
        let (x2, err2) = if e2 >= dy {
            (x + step_toward(x0, x1), err + dy)
        } else {
            (x, err)
        };
        let (y2, err3) = if e2 <= dx {
            (y + step_toward(y0, y1), err2 + dx)
        } else {
            (y, err2)
        };
        (x2, y2, err3)
    }
}

/// The walk is at `(x1, y1)` after `k` steps.
pub open spec fn walk_ends(x0: int, y0: int, x1: int, y1: int, k: nat) -> bool {
    walk(x0, y0, x1, y1, k).0 == x1 && walk(x0, y0, x1, y1, k).1 == y1
}

/// The points the walk visits in its first `k` steps.
pub open spec fn walked(x0: int, y0: int, x1: int, y1: int, k: nat) -> Shape {
    |px: int, py: int|
        exists|j: nat| j < k && #[trigger] walk(x0, y0, x1, y1, j).0 == px && walk(x0, y0, x1, y1, j).1 == py
}

/// The points of the line from `(x0, y0)` to `(x1, y1)`: a straight run when
/// they share a row or a column, else every point of Bresenham's walk up to
/// the first arrival at the far end.
pub open spec fn line_shape(x0: int, y0: int, x1: int, y1: int) -> Shape {
    if y0 == y1 {
        hline_shape(x0, y0, x1 - x0)
    } else if x0 == x1 {
        vline_shape(x0, y0, y1 - y0)
    } else {
        |px: int, py: int|
            exists|k: nat|
                #[trigger] walk(x0, y0, x1, y1, k).0 == px && walk(x0, y0, x1, y1, k).1 == py && forall|j: nat|
                    j < k ==> !walk_ends(x0, y0, x1, y1, j)
    }
}

/// The line from `(x0, y0)` to `(x1, y1)` can be walked in `i32`: a straight
/// run's length fits, and otherwise three times each extent does (the walk's
/// doubled error term stays between those bounds).
pub open spec fn line_fits(x0: int, y0: int, x1: int, y1: int) -> bool {
    if y0 == y1 {
        i32::MIN <= x1 - x0 <= i32::MAX
    } else if x0 == x1 {
        i32::MIN <= y1 - y0 <= i32::MAX
    } else {
        3 * abs_int(x1 - x0) <= i32::MAX && 3 * abs_int(y1 - y0) <= i32::MAX
    }
}

impl<'a> Canvas<'a> {
    /// Plot a line (Bresenham) from `(x0, y0)` to `(x1, y1)`.
    pub fn line(&mut self, x0: i32, y0: i32, x1: i32, y1: i32, ch: char, s: Style)
        requires
            old(self).target().wf(),
            line_fits(x0 as int, y0 as int, x1 as int, y1 as int),
        ensures
            *final(final(self).target()) == *final(old(self).target()),
            Canvas::draws(
                old(self),
                final(self),
                seq![(line_shape(x0 as int, y0 as int, x1 as int, y1 as int), Cell { ch, style: s })],
            ),
    {
        if y0 == y1 {
            self.hline(x0, y0, x1 - x0, ch, s);
            return ;
        }
        if x0 == x1 {
            self.vline(x0, y0, y1 - y0, ch, s);
            return ;
        }
        let ghost (gx0, gy0, gx1, gy1) = (x0 as int, y0 as int, x1 as int, y1 as int);
        let dx: i32 = if x1 >= x0 {
            x1 - x0
        } else {
            x0 - x1
        };
        let dy: i32 = -(if y1 >= y0 {
            y1 - y0
        } else {
            y0 - y1
        });
        let sx: i32 = if x0 < x1 {
            1
        } else {
            -1
        };
        let sy: i32 = if y0 < y1 {
            1
        } else {
            -1
        };
        let mut err: i32 = dx + dy;
        let mut x = x0;
        let mut y = y0;
        let c = Cell::new(ch, s);
        let ghost before = *self.target();
        let ghost clip = self.clip;
        let ghost mut k: nat = 0;
        let ghost mut ga: int = 0;
        let ghost mut gb: int = 0;
        let ghost mut cur: Shape = no_points();
        proof {
            lemma_drawn_refl(before, clip);
            lemma_drawn_new_layer(before, before, clip, Seq::empty(), c);
            assert(Seq::<(Shape, Cell)>::empty().push((no_points(), c)) =~= seq![(cur, c)]);
            assert(dx * (gb + 1) + dy * (ga + 1) == dx + dy) by (nonlinear_arith)
                requires
                    ga == 0,
                    gb == 0,
            ;
        }
        loop
            invariant_except_break
                (x as int, y as int, err as int) == walk(gx0, gy0, gx1, gy1, k),
                forall|j: nat| j < k ==> !walk_ends(gx0, gy0, gx1, gy1, j),
                same_points(cur, walked(gx0, gy0, gx1, gy1, k)),
                0 <= ga <= dx && 0 <= gb <= -dy,
                x == if sx == 1 { x0 + ga } else { x0 - ga },
                y == if sy == 1 { y0 + gb } else { y0 - gb },
                err == dx * (gb + 1) + dy * (ga + 1),
                3 * dy <= 2 * err <= 3 * dx,
            invariant
                x0 != x1 && y0 != y1,
                gx0 == x0 && gy0 == y0 && gx1 == x1 && gy1 == y1,
                dx == abs_int(x1 - x0) && dy == -abs_int(y1 - y0),
                dx > 0 && dy < 0,
                3 * dx <= i32::MAX && -3 * dy <= i32::MAX,
                sx == step_toward(x0 as int, x1 as int) && sy == step_toward(y0 as int, y1 as int),
                x1 == if sx == 1 { x0 + dx } else { x0 - dx },
                y1 == if sy == 1 { y0 - dy } else { y0 + dy },
                c == (Cell { ch, style: s }),
                self.clip == clip,
                *final(self.target()) == *final(old(self).target()),
                drawn(before, *self.target(), clip, seq![(cur, c)]),
            ensures
                same_points(cur, line_shape(gx0, gy0, gx1, gy1)),
            decreases (dx - ga) + (-dy - gb),
        {
            let ghost mid = *self.target();
            self.put(x, y, ch, s);
            proof {
                let next = with_point(cur, x as int, y as int);
                lemma_drawn_put(before, mid, *self.target(), clip, seq![(cur, c)], next, x as int, y as int);
                assert(seq![(cur, c)].update(0, (next, c)) =~= seq![(next, c)]);
                let w1 = walked(gx0, gy0, gx1, gy1, k + 1);
                assert forall|px: int, py: int| #[trigger] next(px, py) == w1(px, py) by {
                    if next(px, py) && !(px == x && py == y) {
                        let j = choose|j: nat| j < k && #[trigger] walk(gx0, gy0, gx1, gy1, j).0 == px && walk(gx0, gy0, gx1, gy1, j).1 == py;
                        assert(j < k + 1);
                    }
                    if px == x && py == y {
                        assert(walk(gx0, gy0, gx1, gy1, k).0 == px);
                    }
                    if w1(px, py) {
                        let j = choose|j: nat| j < k + 1 && #[trigger] walk(gx0, gy0, gx1, gy1, j).0 == px && walk(gx0, gy0, gx1, gy1, j).1 == py;
                        if j < k {
                            assert(walked(gx0, gy0, gx1, gy1, k)(px, py));
                        }
                    }
                }
                cur = next;
            }
            if x == x1 && y == y1 {
                proof {
                    let ls = line_shape(gx0, gy0, gx1, gy1);
                    assert(walk_ends(gx0, gy0, gx1, gy1, k));
                    assert forall|px: int, py: int| #[trigger] cur(px, py) == ls(px, py) by {
                        if cur(px, py) {
                            let j = choose|j: nat| j < k + 1 && #[trigger] walk(gx0, gy0, gx1, gy1, j).0 == px && walk(gx0, gy0, gx1, gy1, j).1 == py;
                            assert(forall|i: nat| i < j ==> !walk_ends(gx0, gy0, gx1, gy1, i));
                        }
                        if ls(px, py) {
                            let j = choose|j: nat|
                                #[trigger] walk(gx0, gy0, gx1, gy1, j).0 == px && walk(gx0, gy0, gx1, gy1, j).1 == py && forall|i: nat|
                                    i < j ==> !walk_ends(gx0, gy0, gx1, gy1, i);
                            if j > k {
                                assert(!walk_ends(gx0, gy0, gx1, gy1, k));
                            }
                            assert(j < k + 1);
                        }
                    }
                }
                break ;
            }
            let ghost e = err as int;
            let ghost (a0, b0) = (ga, gb);
            let e2 = 2 * err;
            if e2 >= dy {
                proof {
                    if a0 == dx {
                        assert(b0 < -dy);
                        assert(dx * (b0 + 1) <= dx * (-dy)) by (nonlinear_arith)
                            requires b0 + 1 <= -dy, dx >= 0;
                        assert(dy * (dx + 1) == dy * dx + dy) by (nonlinear_arith);
                        assert(dx * (-dy) == -(dy * dx)) by (nonlinear_arith);
                        assert(false);
                    }
                    assert(dy * (ga + 2) == dy * (ga + 1) + dy) by (nonlinear_arith);
                    ga = ga + 1;
                }
                err = err + dy;
                x = x + sx;
            }
            if e2 <= dx {
                proof {
                    if b0 == -dy {
                        assert(a0 < dx);
                        assert((-dy) * (a0 + 1) <= (-dy) * dx) by (nonlinear_arith)
                            requires a0 + 1 <= dx, -dy >= 0;
                        assert(dx * (-dy + 1) == dx * (-dy) + dx) by (nonlinear_arith);
                        assert(dy * (a0 + 1) == -((-dy) * (a0 + 1))) by (nonlinear_arith);
                        assert(dx * (-dy) == (-dy) * dx) by (nonlinear_arith);
                        assert(false);
                    }
                    assert(dx * (gb + 2) == dx * (gb + 1) + dx) by (nonlinear_arith);
                    gb = gb + 1;
                }
                err = err + dx;
                y = y + sy;
            }
            proof {
                assert(walk(gx0, gy0, gx1, gy1, k + 1) == (x as int, y as int, err as int));
                assert(!walk_ends(gx0, gy0, gx1, gy1, k));
                k = k + 1;
            }
        }
        proof {
            lemma_drawn_same_points(before, *self.target(), clip, seq![(cur, c)], line_shape(gx0, gy0, gx1, gy1));
            assert(seq![(cur, c)].update(0, (line_shape(gx0, gy0, gx1, gy1), c)) =~= seq![
                (line_shape(gx0, gy0, gx1, gy1), c),
            ]);
        }
    }
}

/// How far the walk has gone along x after `k` steps, counted toward `x1`.
pub open spec fn walk_dx(x0: int, y0: int, x1: int, y1: int, k: nat) -> int {
    if x0 < x1 {
        walk(x0, y0, x1, y1, k).0 - x0
    } else {
        x0 - walk(x0, y0, x1, y1, k).0
    }
}

/// How far the walk has gone along y after `k` steps, counted toward `y1`.
pub open spec fn walk_dy(x0: int, y0: int, x1: int, y1: int, k: nat) -> int {
    if y0 < y1 {
        walk(x0, y0, x1, y1, k).1 - y0
    } else {
        y0 - walk(x0, y0, x1, y1, k).1
    }
}

proof fn lemma_walk_progress(x0: int, y0: int, x1: int, y1: int, k: nat)
    requires
        x0 != x1,
        y0 != y1,
        k <= (if abs_int(x1 - x0) >= abs_int(y1 - y0) { abs_int(x1 - x0) } else { abs_int(y1 - y0) }),
    ensures
        ({
            let dx = abs_int(x1 - x0);
            let dy = abs_int(y1 - y0);
            let a = walk_dx(x0, y0, x1, y1, k);
            let b = walk_dy(x0, y0, x1, y1, k);
            let e = walk(x0, y0, x1, y1, k).2;
            &&& 0 <= a <= dx
            &&& 0 <= b <= dy
            &&& e == dx * (b + 1) - dy * (a + 1)
            &&& dx >= dy ==> a == k && 2 * e >= -dy
            &&& dy >= dx ==> b == k && 2 * e <= dx
        }),
    decreases k,
{
    let dx = abs_int(x1 - x0);
    let dy = abs_int(y1 - y0);
    if k > 0 {
        let j = (k - 1) as nat;
        lemma_walk_progress(x0, y0, x1, y1, j);
        let a = walk_dx(x0, y0, x1, y1, j);
        let b = walk_dy(x0, y0, x1, y1, j);
        let e = walk(x0, y0, x1, y1, j).2;
        let a2 = walk_dx(x0, y0, x1, y1, k);
        let b2 = walk_dy(x0, y0, x1, y1, k);
        let e2 = walk(x0, y0, x1, y1, k).2;
        let xs = 2 * e >= -dy;
        let ys = 2 * e <= dx;
        assert(a2 == if xs { a + 1 } else { a });
        assert(b2 == if ys { b + 1 } else { b });
        assert(e2 == e + (if xs { -dy } else { 0 }) + (if ys { dx } else { 0 }));
        assert(dx * (b + 2) == dx * (b + 1) + dx) by (nonlinear_arith);
        assert(dy * (a + 2) == dy * (a + 1) + dy) by (nonlinear_arith);
        if dx >= dy {
            assert(a == j && j < dx);
            if b == dy {
                assert(dy * (dx - a - 1) >= 0) by (nonlinear_arith)
                    requires dy >= 0, dx - a - 1 >= 0;
                assert(dx * (dy + 1) - dy * (a + 1) == dx + dy * (dx - a - 1)) by (nonlinear_arith);
                assert(!ys);
            }
        }
        if dy >= dx {
            assert(b == j && j < dy);
            if a == dx {
                assert(dx * (dy - b - 1) >= 0) by (nonlinear_arith)
                    requires dx >= 0, dy - b - 1 >= 0;
                assert(dx * (b + 1) - dy * (dx + 1) == -dy - dx * (dy - b - 1)) by (nonlinear_arith);
                assert(!xs);
            }
        }
        assert(0 <= a2 <= dx);
        assert(0 <= b2 <= dy);
        assert(e2 == dx * (b2 + 1) - dy * (a2 + 1));
        assert(dx >= dy ==> a2 == k);
        assert(dx >= dy ==> 2 * e2 >= -dy);
        assert(dy >= dx ==> b2 == k);
        assert(dy >= dx ==> 2 * e2 <= dx);
    } else {
        assert(walk(x0, y0, x1, y1, 0) == (x0, y0, dx - dy));
        assert(walk_dx(x0, y0, x1, y1, 0) == 0);
        assert(walk_dy(x0, y0, x1, y1, 0) == 0);
    }
}

/// Bresenham's walk, stated directly: with `M` the larger of the two
/// extents, the walk first reaches the far end after exactly `M` steps; each
/// step moves each coordinate by 0 or by one toward the end; the `M + 1`
/// points it visits are all different; and the line is exactly those points.
pub proof fn law_line_walk(x0: int, y0: int, x1: int, y1: int)
    requires
        x0 != x1,
        y0 != y1,
    ensures
        ({
            let m = if abs_int(x1 - x0) >= abs_int(y1 - y0) { abs_int(x1 - x0) } else { abs_int(y1 - y0) };
            &&& walk_ends(x0, y0, x1, y1, m as nat)
            &&& forall|j: nat| j < m ==> !walk_ends(x0, y0, x1, y1, j)
            &&& forall|k: nat| #![trigger walk(x0, y0, x1, y1, k)] k < m ==> {
                let p = walk(x0, y0, x1, y1, k);
                let q = walk(x0, y0, x1, y1, k + 1);
                &&& (q.0 == p.0 || q.0 == p.0 + step_toward(x0, x1))
                &&& (q.1 == p.1 || q.1 == p.1 + step_toward(y0, y1))
            }
            &&& forall|j: nat, k: nat| #![trigger walk(x0, y0, x1, y1, j), walk(x0, y0, x1, y1, k)]
                j < k <= m ==> (walk(x0, y0, x1, y1, j).0, walk(x0, y0, x1, y1, j).1) != (
                    walk(x0, y0, x1, y1, k).0,
                    walk(x0, y0, x1, y1, k).1,
                )
            &&& forall|px: int, py: int| #[trigger] line_shape(x0, y0, x1, y1)(px, py) <==> exists|k: nat|
                k <= m && #[trigger] walk(x0, y0, x1, y1, k).0 == px && walk(x0, y0, x1, y1, k).1 == py
        }),
{
    let dx = abs_int(x1 - x0);
    let dy = abs_int(y1 - y0);
    let m = if dx >= dy { dx } else { dy };
    lemma_walk_progress(x0, y0, x1, y1, m as nat);
    let a = walk_dx(x0, y0, x1, y1, m as nat);
    let b = walk_dy(x0, y0, x1, y1, m as nat);
    let e = walk(x0, y0, x1, y1, m as nat).2;
    if dx >= dy {
        assert(a == dx);
        assert(2 * (dx * (b + 1) - dy * (dx + 1)) >= -dy);
        assert(b >= dy) by (nonlinear_arith)
            requires 2 * (dx * (b + 1) - dy * (dx + 1)) >= -dy, dx >= dy, dy > 0, dx > 0, b <= dy;
    } else {
        assert(b == dy);
        assert(2 * (dx * (dy + 1) - dy * (a + 1)) <= dx);
        assert(a >= dx) by (nonlinear_arith)
            requires 2 * (dx * (dy + 1) - dy * (a + 1)) <= dx, dy > dx, dx > 0, a <= dx;
    }
    assert(walk_ends(x0, y0, x1, y1, m as nat));
    assert forall|j: nat| j < m implies !walk_ends(x0, y0, x1, y1, j) by {
        lemma_walk_progress(x0, y0, x1, y1, j);
    }
    assert forall|j: nat, k: nat| j < k <= m implies (walk(x0, y0, x1, y1, j).0, walk(x0, y0, x1, y1, j).1) != (
        walk(x0, y0, x1, y1, k).0,
        walk(x0, y0, x1, y1, k).1,
    ) by {
        lemma_walk_progress(x0, y0, x1, y1, j);
        lemma_walk_progress(x0, y0, x1, y1, k);
    }
    assert forall|px: int, py: int| #[trigger] line_shape(x0, y0, x1, y1)(px, py) <==> exists|k: nat|
        k <= m && #[trigger] walk(x0, y0, x1, y1, k).0 == px && walk(x0, y0, x1, y1, k).1 == py by {
        if line_shape(x0, y0, x1, y1)(px, py) {
            let k = choose|k: nat|
                #[trigger] walk(x0, y0, x1, y1, k).0 == px && walk(x0, y0, x1, y1, k).1 == py && forall|j: nat|
                    j < k ==> !walk_ends(x0, y0, x1, y1, j);
            if k > m {
                assert(!walk_ends(x0, y0, x1, y1, m as nat));
            }
        }
        if exists|k: nat| k <= m && #[trigger] walk(x0, y0, x1, y1, k).0 == px && walk(x0, y0, x1, y1, k).1 == py {
            let k = choose|k: nat| k <= m && #[trigger] walk(x0, y0, x1, y1, k).0 == px && walk(x0, y0, x1, y1, k).1 == py;
            assert forall|j: nat| j < k implies !walk_ends(x0, y0, x1, y1, j) by {
                lemma_walk_progress(x0, y0, x1, y1, j);
            }
        }
    }
}

/// The layers of a polyline through `pts`: the line of each consecutive pair, in order.
pub open spec fn polyline_layers(pts: Seq<Point>, c: Cell) -> Seq<(Shape, Cell)> {
    Seq::new(
        (if pts.len() >= 1 {
            pts.len() - 1
        } else {
            0
        }) as nat,
        |i: int| (line_shape(pts[i].x as int, pts[i].y as int, pts[i + 1].x as int, pts[i + 1].y as int), c),
    )
}

impl<'a> Canvas<'a> {
    /// Plot a polyline through the given points.
    pub fn polyline(&mut self, pts: &[Point], ch: char, s: Style)
        requires
            old(self).target().wf(),
        ensures
            *final(final(self).target()) == *final(old(self).target()),
            Canvas::draws(old(self), final(self), polyline_layers(pts@, Cell { ch, style: s })),
    {
        let ghost before = *self.target();
        let ghost clip = self.clip;
        let ghost c = Cell { ch, style: s };
        proof {
            lemma_drawn_refl(before, clip);
        }
        if pts.len() < 2 {
            assert(polyline_layers(pts@, c) =~= Seq::<(Shape, Cell)>::empty());
            return ;
        }
        let mut i: usize = 1;
        assert(polyline_layers(pts@.subrange(0, 1), c) =~= Seq::<(Shape, Cell)>::empty());
        while i < pts.len()
            invariant
                1 <= i <= pts.len(),
                c == (Cell { ch, style: s }),
                self.clip == clip,
                *final(self.target()) == *final(old(self).target()),
                drawn(before, *self.target(), clip, polyline_layers(pts@.subrange(0, i as int), c)),
            decreases pts.len() - i,
        {
            let a = pts[i - 1];
            let b = pts[i];
            let ghost mid = *self.target();
            let (ax, ay, bx, by) = (a.x as i32, a.y as i32, b.x as i32, b.y as i32);
            assert(ax as int == a.x as int && ay as int == a.y as int && bx as int == b.x as int && by as int == b.y as int);
            self.line(ax, ay, bx, by, ch, s);
            proof {
                let l = seq![(line_shape(a.x as int, a.y as int, b.x as int, b.y as int), c)];
                assert(drawn(mid, *self.target(), clip, l));
                lemma_drawn_compose(before, mid, *self.target(), clip, polyline_layers(pts@.subrange(0, i as int), c), l);
                assert(polyline_layers(pts@.subrange(0, i as int), c) + l =~= polyline_layers(
                    pts@.subrange(0, i + 1),
                    c,
                ));
            }
            i = i + 1;
        }
        assert(pts@.subrange(0, i as int) =~= pts@);
    }
}

/// The state `(x, y, err)` of the midpoint circle walk of radius `rad` after `k` steps.
pub open spec fn circle_walk(rad: int, k: nat) -> (int, int, int)
    decreases k,
{
    if k == 0 {
        (rad, 0, 1 - rad)
    } else {
        let (x, y, err) = circle_walk(rad, (k - 1) as nat);
        let y2 = y + 1;
        if err < 0 {
            (x, y2, err + 2 * y2 + 1)
        } else {
            (x - 1, y2, err + 2 * (y2 - (x - 1)) + 1)
        }
    }
}

/// `(px, py)` is one of the eight mirror images of `(x, y)` around `(cx, cy)`.
pub open spec fn octants(cx: int, cy: int, x: int, y: int, px: int, py: int) -> bool {
    ||| px == cx + x && py == cy + y
    ||| px == cx + y && py == cy + x
    ||| px == cx - y && py == cy + x
    ||| px == cx - x && py == cy + y
    ||| px == cx - x && py == cy - y
    ||| px == cx - y && py == cy - x
    ||| px == cx + y && py == cy - x
    ||| px == cx + x && py == cy - y
}

/// `pts` lists the eight mirror images of `(x, y)` around `(cx, cy)`.
pub open spec fn eight_points(pts: Seq<(i32, i32)>, cx: int, cy: int, x: int, y: int) -> bool {
    &&& pts.len() == 8
    &&& pts[0].0 == cx + x && pts[0].1 == cy + y
    &&& pts[1].0 == cx + y && pts[1].1 == cy + x
    &&& pts[2].0 == cx - y && pts[2].1 == cy + x
    &&& pts[3].0 == cx - x && pts[3].1 == cy + y
    &&& pts[4].0 == cx - x && pts[4].1 == cy - y
    &&& pts[5].0 == cx - y && pts[5].1 == cy - x
    &&& pts[6].0 == cx + y && pts[6].1 == cy - x
    &&& pts[7].0 == cx + x && pts[7].1 == cy - y
}

/// The points of a circle outline of radius `rad` around `(cx, cy)`: the
/// mirror images of every state of the midpoint walk that has not yet
/// crossed the diagonal.
pub open spec fn circle_shape(cx: int, cy: int, rad: int) -> Shape {
    |px: int, py: int|
        exists|k: nat|
            #[trigger] circle_walk(rad, k).0 >= circle_walk(rad, k).1 && octants(
                cx,
                cy,
                circle_walk(rad, k).0,
                circle_walk(rad, k).1,
                px,
                py,
            )
}

/// The walk's row is its step count; each step brings it closer to the diagonal.
proof fn lemma_circle_walk(rad: int, k: nat)
    ensures
        circle_walk(rad, k).1 == k,
        circle_walk(rad, k + 1).0 - circle_walk(rad, k + 1).1 < circle_walk(rad, k).0 - circle_walk(rad, k).1,
        circle_walk(rad, k).0 <= rad,
        circle_walk(rad, k).2 == circle_walk(rad, k).0 * circle_walk(rad, k).0 + circle_walk(rad, k).1
            * circle_walk(rad, k).1 - rad * rad - circle_walk(rad, k).0 + 2 * circle_walk(rad, k).1 + 1,
    decreases k,
{
    if k > 0 {
        lemma_circle_walk(rad, (k - 1) as nat);
        let (x, y, err) = circle_walk(rad, (k - 1) as nat);
        assert((x - 1) * (x - 1) == x * x - 2 * x + 1) by (nonlinear_arith);
        assert((y + 1) * (y + 1) == y * y + 2 * y + 1) by (nonlinear_arith);
    }
}

/// Past the diagonal, the walk stays past it.
proof fn lemma_circle_walk_past(rad: int, k: nat, j: nat)
    requires
        k <= j,
    ensures
        circle_walk(rad, j).0 - circle_walk(rad, j).1 <= circle_walk(rad, k).0 - circle_walk(rad, k).1,
    decreases j - k,
{
    if k < j {
        lemma_circle_walk_past(rad, k, (j - 1) as nat);
        lemma_circle_walk(rad, (j - 1) as nat);
    }
}

impl<'a> Canvas<'a> {
    /// Adds the point `(x, y)` to the last layer.
    fn add_point(
        &mut self,
        x: i32,
        y: i32,
        c: Cell,
        Ghost(before): Ghost<Buffer>,
        Ghost(layers): Ghost<Seq<(Shape, Cell)>>,
        Ghost(shape): Ghost<Shape>,
    )
        requires
            drawn(before, *old(self).target(), old(self).clip_rect(), layers.push((shape, c))),
        ensures
            final(self).clip_rect() == old(self).clip_rect(),
            *final(final(self).target()) == *final(old(self).target()),
            drawn(
                before,
                *final(self).target(),
                old(self).clip_rect(),
                layers.push((with_point(shape, x as int, y as int), c)),
            ),
    {
        let ghost mid = *self.target();
        self.put(x, y, c.ch, c.style);
        proof {
            let next = with_point(shape, x as int, y as int);
            lemma_drawn_put(before, mid, *self.target(), self.clip, layers.push((shape, c)), next, x as int, y as int);
            assert(layers.push((shape, c)).update(layers.len() as int, (next, c)) =~= layers.push((next, c)));
        }
    }

    /// A circle outline (midpoint algorithm).
    pub fn circle(&mut self, cx: i32, cy: i32, rad: i32, ch: char, s: Style)
        requires
            old(self).target().wf(),
            i32::MIN < rad <= 0x3fff_fffe,
            rad >= 0 ==> i32::MIN <= cx - rad && cx + rad <= i32::MAX && i32::MIN <= cy - rad && cy + rad
                <= i32::MAX,
        ensures
            *final(final(self).target()) == *final(old(self).target()),
            Canvas::draws(
                old(self),
                final(self),
                seq![(circle_shape(cx as int, cy as int, rad as int), Cell { ch, style: s })],
            ),
    {
        let c = Cell::new(ch, s);
        let ghost before = *self.target();
        let ghost clip = self.clip;
        let ghost e: Seq<(Shape, Cell)> = Seq::empty();
        let ghost r = rad as int;
        let ghost mut k: nat = 0;
        let ghost mut cur: Shape = no_points();
        proof {
            lemma_drawn_refl(before, clip);
            lemma_drawn_new_layer(before, before, clip, e, c);
        }
        let mut x: i32 = rad;
        let mut y: i32 = 0;
        let mut err: i64 = 1 - rad as i64;
        while x >= y
            invariant
                (x as int, y as int, err as int) == circle_walk(r, k),
                r == rad,
                i32::MIN < rad <= 0x3fff_fffe,
                rad >= 0 ==> i32::MIN <= cx - rad && cx + rad <= i32::MAX && i32::MIN <= cy - rad && cy + rad
                    <= i32::MAX,
                x <= rad,
                y == k,
                k > 0 ==> y <= x + 2,
                c == (Cell { ch, style: s }),
                self.clip == clip,
                *final(self.target()) == *final(old(self).target()),
                drawn(before, *self.target(), clip, e.push((cur, c))),
                forall|px: int, py: int|
                    #[trigger] cur(px, py) == exists|j: nat| j < k && #[trigger] octants(
                        cx as int,
                        cy as int,
                        circle_walk(r, j).0,
                        circle_walk(r, j).1,
                        px,
                        py,
                    ),
                forall|j: nat| j < k ==> #[trigger] circle_walk(r, j).0 >= circle_walk(r, j).1,
            decreases x - y + 3,
        {
            proof {
                lemma_circle_walk(r, k);
            }
            let pts = [
                (cx + x, cy + y),
                (cx + y, cy + x),
                (cx - y, cy + x),
                (cx - x, cy + y),
                (cx - x, cy - y),
                (cx - y, cy - x),
                (cx + y, cy - x),
                (cx + x, cy - y),
            ];
            let ghost start = cur;
            let mut t: usize = 0;
            while t < 8
                invariant
                    0 <= t <= 8,
                    eight_points(pts@, cx as int, cy as int, x as int, y as int),
                    c == (Cell { ch, style: s }),
                    self.clip == clip,
                    *final(self.target()) == *final(old(self).target()),
                    drawn(before, *self.target(), clip, e.push((cur, c))),
                    forall|px: int, py: int|
                        #[trigger] cur(px, py) == (start(px, py) || exists|u: int| 0 <= u < t && pts@[u].0 == px
                            && pts@[u].1 == py),
                decreases 8 - t,
            {
                let (px, py) = pts[t];
                self.add_point(px, py, c, Ghost(before), Ghost(e), Ghost(cur));
                proof {
                    let next = with_point(cur, px as int, py as int);
                    assert forall|qx: int, qy: int|
                        #[trigger] next(qx, qy) == (start(qx, qy) || exists|u: int| 0 <= u < t + 1 && pts@[u].0 == qx
                            && pts@[u].1 == qy) by {
                        if exists|u: int| 0 <= u < t + 1 && pts@[u].0 == qx && pts@[u].1 == qy {
                            let u = choose|u: int| 0 <= u < t + 1 && pts@[u].0 == qx && pts@[u].1 == qy;
                            if u < t {
                                assert(cur(qx, qy));
                            }
                        }
                        if cur(qx, qy) && !start(qx, qy) {
                            let u = choose|u: int| 0 <= u < t && pts@[u].0 == qx && pts@[u].1 == qy;
                            assert(0 <= u < t + 1);
                        }
                        if qx == px && qy == py {
                            assert(pts@[t as int].0 == qx && pts@[t as int].1 == qy);
                        }
                    }
                    cur = next;
                }
                t = t + 1;
            }
            proof {
                let (gx, gy) = (x as int, y as int);
                assert forall|px: int, py: int|
                    #[trigger] cur(px, py) == exists|j: nat| j < k + 1 && #[trigger] octants(
                        cx as int,
                        cy as int,
                        circle_walk(r, j).0,
                        circle_walk(r, j).1,
                        px,
                        py,
                    ) by {
                    let here = octants(cx as int, cy as int, gx, gy, px, py);
                    assert(here == exists|u: int| 0 <= u < 8 && pts@[u].0 == px && pts@[u].1 == py) by {
                        if here {
                            if px == cx + gx && py == cy + gy {
                                assert(pts@[0].0 == px && pts@[0].1 == py);
                            } else if px == cx + gy && py == cy + gx {
                                assert(pts@[1].0 == px && pts@[1].1 == py);
                            } else if px == cx - gy && py == cy + gx {
                                assert(pts@[2].0 == px && pts@[2].1 == py);
                            } else if px == cx - gx && py == cy + gy {
                                assert(pts@[3].0 == px && pts@[3].1 == py);
                            } else if px == cx - gx && py == cy - gy {
                                assert(pts@[4].0 == px && pts@[4].1 == py);
                            } else if px == cx - gy && py == cy - gx {
                                assert(pts@[5].0 == px && pts@[5].1 == py);
                            } else if px == cx + gy && py == cy - gx {
                                assert(pts@[6].0 == px && pts@[6].1 == py);
                            } else {
                                assert(pts@[7].0 == px && pts@[7].1 == py);
                            }
                        }
                    }
                    if here {
                        assert(octants(cx as int, cy as int, circle_walk(r, k).0, circle_walk(r, k).1, px, py));
                    }
                    if exists|j: nat| j < k + 1 && #[trigger] octants(cx as int, cy as int, circle_walk(r, j).0, circle_walk(r, j).1, px, py) {
                        let j = choose|j: nat| j < k + 1 && #[trigger] octants(cx as int, cy as int, circle_walk(r, j).0, circle_walk(r, j).1, px, py);
                        if j < k {
                            assert(start(px, py));
                        }
                    }
                }
                assert((x as int) * (x as int) <= 0x4000_0000 * 0x4000_0000) by (nonlinear_arith)
                    requires -2 <= x <= 0x3fff_fffe;
                assert((y as int) * (y as int) <= 0x4000_0000 * 0x4000_0000) by (nonlinear_arith)
                    requires 0 <= y <= 0x4000_0000;
                assert((rad as int) * (rad as int) <= 0x4000_0000 * 0x4000_0000) by (nonlinear_arith)
                    requires 0 <= rad <= 0x3fff_fffe;
            }
            y = y + 1;
            if err < 0 {
                err = err + 2 * y as i64 + 1;
            } else {
                x = x - 1;
                err = err + 2 * (y as i64 - x as i64) + 1;
            }
            proof {
                k = k + 1;
            }
        }
        proof {
            let cs = circle_shape(cx as int, cy as int, r);
            assert forall|px: int, py: int| #[trigger] cur(px, py) == cs(px, py) by {
                if cur(px, py) {
                    let j = choose|j: nat| j < k && #[trigger] octants(cx as int, cy as int, circle_walk(r, j).0, circle_walk(r, j).1, px, py);
                    assert(circle_walk(r, j).0 >= circle_walk(r, j).1);
                }
                if cs(px, py) {
                    let j = choose|j: nat|
                        #[trigger] circle_walk(r, j).0 >= circle_walk(r, j).1 && octants(cx as int, cy as int, circle_walk(r, j).0, circle_walk(r, j).1, px, py);
                    if j >= k {
                        lemma_circle_walk_past(r, k, j);
                    }
                    assert(j < k);
                }
            }
            lemma_drawn_same_points(before, *self.target(), clip, e.push((cur, c)), cs);
            assert(e.push((cur, c)).update(0, (cs, c)) =~= seq![(cs, c)]);
        }
    }
}

} // verus!
