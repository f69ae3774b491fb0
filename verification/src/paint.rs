//! A picture drawn in several steps — shapes under a clip rect, and text
//! written cell by cell — described as one list of painting operations.
use vstd::prelude::*;
use crate::buffer::{Buffer, Cell};
use crate::canvas::{drawn, hits, top_layer, Shape};
use crate::layout::Rect;
use crate::style::Style;
use crate::widgets::text::rows_cell;
use crate::ansi::str_chars;
use crate::border::BorderSet;
use crate::canvas::{border_layers, rect_shape};
use crate::color::Color;
use crate::frame::Frame;
use crate::layout::Align;
use crate::style::plain_style;

verus! {

/// One painting operation.
pub ghost enum Op {
    /// Every cell inside the clip rect that a point of the shape lands on gets the cell.
    Layer(Shape, Cell, Rect),
    /// Text written from `(x, y)` rightwards, clipped to the buffer.
    Text(int, int, Seq<char>, Style),
}

/// Cell `(a, b)` of `base` after the operations `ops`, in order.
pub open spec fn painted(base: Buffer, ops: Seq<Op>, a: int, b: int) -> Cell
    decreases ops.len(),
{
    if ops.len() == 0 {
        base.cell(a, b)
    } else {
        let prev = painted(base, ops.drop_last(), a, b);
        match ops.last() {
            Op::Layer(s, c, clip) => if base.in_bounds(a, b) && clip.contains_spec(a, b) && hits(s, a, b) {
                c
            } else {
                prev
            },
            Op::Text(x, y, t, st) => if b == y && x <= a < x + t.len() && base.in_bounds(a, b) {
                Cell { ch: t[a - x], style: st }
            } else {
                prev
            },
        }
    }
}

/// `after` is `before` with the operations `ops` applied.
pub open spec fn paints(before: Buffer, after: Buffer, ops: Seq<Op>) -> bool {
    &&& after.wf()
    &&& after.area == before.area
    &&& forall|a: int, b: int| #[trigger] after.cell(a, b) == painted(before, ops, a, b)
}

/// The operations that draw `layers` under `clip`.
pub open spec fn layer_ops(layers: Seq<(Shape, Cell)>, clip: Rect) -> Seq<Op>
    decreases layers.len(),
{
    if layers.len() == 0 {
        seq![]
    } else {
        layer_ops(layers.drop_last(), clip).push(Op::Layer(layers.last().0, layers.last().1, clip))
    }
}

proof fn lemma_layer_ops_cell(base: Buffer, layers: Seq<(Shape, Cell)>, clip: Rect, a: int, b: int)
    ensures
        painted(base, layer_ops(layers, clip), a, b) == if base.in_bounds(a, b) && clip.contains_spec(a, b)
            && top_layer(layers, a, b) is Some {
            top_layer(layers, a, b).unwrap()
        } else {
            base.cell(a, b)
        },
    decreases layers.len(),
{
    if layers.len() > 0 {
        lemma_layer_ops_cell(base, layers.drop_last(), clip, a, b);
        let ops = layer_ops(layers, clip);
        assert(ops.drop_last() =~= layer_ops(layers.drop_last(), clip));
    }
}

/// Drawing layers under a clip rect is applying their layer operations.
pub proof fn lemma_drawn_paints(b0: Buffer, b1: Buffer, clip: Rect, layers: Seq<(Shape, Cell)>)
    requires
        drawn(b0, b1, clip, layers),
    ensures
        paints(b0, b1, layer_ops(layers, clip)),
{
    assert forall|a: int, b: int| #[trigger] b1.cell(a, b) == painted(b0, layer_ops(layers, clip), a, b) by {
        lemma_layer_ops_cell(b0, layers, clip, a, b);
    }
}

/// Writing text is applying its text operation.
pub proof fn lemma_text_paints(b0: Buffer, b1: Buffer, x: int, y: int, t: Seq<char>, st: Style)
    requires
        b1.wf(),
        b1.area == b0.area,
        forall|a: int, b: int| #[trigger] b1.cell(a, b) == b0.text_cell(x, y, t, st, a, b),
    ensures
        paints(b0, b1, seq![Op::Text(x, y, t, st)]),
{
    let op = Op::Text(x, y, t, st);
    let ops = seq![op];
    assert(ops.len() == 1);
    assert(ops.last() == op);
    assert(ops.drop_last() =~= Seq::<Op>::empty());
    assert forall|a: int, b: int| #[trigger] b1.cell(a, b) == painted(b0, ops, a, b) by {
        assert(painted(b0, ops.drop_last(), a, b) == b0.cell(a, b));
    }
}

/// No operations change nothing.
pub proof fn lemma_paints_refl(b: Buffer)
    requires
        b.wf(),
    ensures
        paints(b, b, seq![]),
{
}

proof fn lemma_painted_concat(b0: Buffer, b1: Buffer, ops1: Seq<Op>, ops2: Seq<Op>, a: int, b: int)
    requires
        paints(b0, b1, ops1),
    ensures
        painted(b1, ops2, a, b) == painted(b0, ops1 + ops2, a, b),
    decreases ops2.len(),
{
    if ops2.len() == 0 {
        assert(ops1 + ops2 =~= ops1);
    } else {
        lemma_painted_concat(b0, b1, ops1, ops2.drop_last(), a, b);
        assert((ops1 + ops2).drop_last() =~= ops1 + ops2.drop_last());
        assert((ops1 + ops2).last() == ops2.last());
    }
}

/// Applying `ops1` and then `ops2` is applying `ops1 + ops2`.
pub proof fn lemma_paints_compose(b0: Buffer, b1: Buffer, b2: Buffer, ops1: Seq<Op>, ops2: Seq<Op>)
    requires
        paints(b0, b1, ops1),
        paints(b1, b2, ops2),
    ensures
        paints(b0, b2, ops1 + ops2),
{
    assert forall|a: int, b: int| #[trigger] b2.cell(a, b) == painted(b0, ops1 + ops2, a, b) by {
        lemma_painted_concat(b0, b1, ops1, ops2, a, b);
    }
}

/// The text operations of `rows[0..n]`, row `k` written from `at(k)`.
pub open spec fn rows_ops(rows: Seq<Seq<char>>, at: spec_fn(int) -> (int, int), st: Style, n: int) -> Seq<Op>
    decreases n,
{
    if n <= 0 {
        seq![]
    } else {
        rows_ops(rows, at, st, n - 1).push(Op::Text(at(n - 1).0, at(n - 1).1, rows[n - 1], st))
    }
}

proof fn lemma_rows_ops_cell(base: Buffer, rows: Seq<Seq<char>>, at: spec_fn(int) -> (int, int), st: Style, n: int, a: int, b: int)
    ensures
        painted(base, rows_ops(rows, at, st, n), a, b) == rows_cell(base, rows, at, st, n, a, b),
    decreases n,
{
    if n > 0 {
        lemma_rows_ops_cell(base, rows, at, st, n - 1, a, b);
        assert(rows_ops(rows, at, st, n).drop_last() =~= rows_ops(rows, at, st, n - 1));
    }
}

/// Writing rows of text (as [`crate::widgets::text::Text`] does) is applying their text operations.
pub proof fn lemma_rows_paint(b0: Buffer, b1: Buffer, rows: Seq<Seq<char>>, at: spec_fn(int) -> (int, int), st: Style, n: int)
    requires
        b1.wf(),
        b1.area == b0.area,
        forall|a: int, b: int| #[trigger] b1.cell(a, b) == rows_cell(b0, rows, at, st, n, a, b),
    ensures
        paints(b0, b1, rows_ops(rows, at, st, n)),
{
    assert forall|a: int, b: int| #[trigger] b1.cell(a, b) == painted(b0, rows_ops(rows, at, st, n), a, b) by {
        lemma_rows_ops_cell(b0, rows, at, st, n, a, b);
    }
}

/// Text on the first row of `r`, aligned within its width: what `Text`
/// draws for one line.
pub open spec fn line_ops(r: Rect, t: Seq<char>, align: Align, st: Style) -> Seq<Op> {
    if r.y < r.bottom_spec() {
        seq![
            Op::Text(
                (r.x + align.h_offset_spec((t.len() % 65536) as int, r.w as int)) as u16 as int,
                r.y as int,
                t,
                st,
            ),
        ]
    } else {
        seq![]
    }
}

/// The plain style with foreground `fg`.
pub open spec fn fg_style(fg: Color) -> Style {
    Style { fg, ..plain_style() }
}

/// The plain style with foreground `fg` and background `bg`.
pub open spec fn fg_bg_style(fg: Color, bg: Color) -> Style {
    Style { fg, bg, ..plain_style() }
}

/// Write one line of text into the first row of `r`, aligned.
pub(crate) fn text_line(frame: &mut Frame, r: Rect, s: &str, align: Align, st: Style)
    requires
        old(frame).target().wf(),
    ensures
        paints(*old(frame).target(), *final(frame).target(), line_ops(r, s@, align, st)),
        *final(final(frame).target()) == *final(old(frame).target()),
        final(frame).same_state(old(frame)),
{
    if r.y < r.bottom() {
        let n = str_chars(s).len();
        let len = n as u16;
        assert(len == n % 65536) by (bit_vector)
            requires len == n as u16;
        let off = align.h_offset(len, r.w);
        let x = (r.x as i32 + off as i32) as u16;
        let ghost b0 = *frame.target();
        frame.write_text(x, r.y, s, st);
        proof {
            lemma_text_paints(b0, *frame.target(), x as int, r.y as int, s@, st);
        }
    } else {
        proof {
            lemma_paints_refl(*frame.target());
        }
    }
}

/// Fill `r` with `ch` in style `st`, clipped to `clip` within the buffer.
pub(crate) fn fill_clipped(frame: &mut Frame, clip: Rect, r: Rect, ch: char, st: Style)
    requires
        old(frame).target().wf(),
    ensures
        paints(
            *old(frame).target(),
            *final(frame).target(),
            layer_ops(seq![(rect_shape(r), Cell { ch, style: st })], old(frame).target().area.intersect_spec(clip)),
        ),
        *final(final(frame).target()) == *final(old(frame).target()),
        final(frame).same_state(old(frame)),
{
    let ghost b0 = *frame.target();
    let c = frame.canvas();
    let ghost cfin = *final(c.target());
    let mut c = c.clip(clip);
    c.fill_rect(r, ch, st);
    let ghost b1 = *c.target();
    proof {
        lemma_drawn_paints(b0, b1, b0.area.intersect_spec(clip), seq![(rect_shape(r), Cell { ch, style: st })]);
    }
    assert(*c.target() == cfin);
}

/// Fill `r` with `ch` in style `st`, within the buffer.
pub(crate) fn fill_plain(frame: &mut Frame, r: Rect, ch: char, st: Style)
    requires
        old(frame).target().wf(),
    ensures
        paints(
            *old(frame).target(),
            *final(frame).target(),
            layer_ops(seq![(rect_shape(r), Cell { ch, style: st })], old(frame).target().area),
        ),
        *final(final(frame).target()) == *final(old(frame).target()),
        final(frame).same_state(old(frame)),
{
    let ghost b0 = *frame.target();
    let mut c = frame.canvas();
    let ghost cfin = *final(c.target());
    c.fill_rect(r, ch, st);
    let ghost b1 = *c.target();
    proof {
        lemma_drawn_paints(b0, b1, b0.area, seq![(rect_shape(r), Cell { ch, style: st })]);
    }
    assert(*c.target() == cfin);
}

/// Draw the border of `r` with the glyphs `b` in style `st`, clipped to `r`.
pub(crate) fn border_clipped(frame: &mut Frame, r: Rect, b: BorderSet, st: Style)
    requires
        old(frame).target().wf(),
    ensures
        paints(
            *old(frame).target(),
            *final(frame).target(),
            layer_ops(border_layers(r, b, st), old(frame).target().area.intersect_spec(r)),
        ),
        *final(final(frame).target()) == *final(old(frame).target()),
        final(frame).same_state(old(frame)),
{
    let ghost b0 = *frame.target();
    let c = frame.canvas();
    let ghost cfin = *final(c.target());
    let mut c = c.clip(r);
    c.border(r, b, st);
    let ghost b1 = *c.target();
    proof {
        lemma_drawn_paints(b0, b1, b0.area.intersect_spec(r), border_layers(r, b, st));
    }
    assert(*c.target() == cfin);
}

/// Set one cell: text of one character.
pub(crate) fn put_one(frame: &mut Frame, x: u16, y: u16, ch: char, st: Style)
    requires
        old(frame).target().wf(),
    ensures
        paints(*old(frame).target(), *final(frame).target(), seq![Op::Text(x as int, y as int, seq![ch], st)]),
        *final(final(frame).target()) == *final(old(frame).target()),
        final(frame).same_state(old(frame)),
{
    let ghost b0 = *frame.target();
    frame.put_cell(x, y, ch, st);
    proof {
        let b1 = *frame.target();
        assert forall|a: int, b: int| #[trigger] b1.cell(a, b) == b0.text_cell(x as int, y as int, seq![ch], st, a, b) by {
        }
        lemma_text_paints(b0, b1, x as int, y as int, seq![ch], st);
    }
}

} // verus!
