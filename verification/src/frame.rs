//! The per-frame drawing surface handed to your render callback.
use vstd::prelude::*;
use crate::buffer::{Buffer, Cell};
use crate::style::Style;
use crate::canvas::Canvas;
use crate::color::ColorLevel;
use crate::layout::Rect;

verus! {

/// A mutable view into the screen for one frame.
pub struct Frame<'a> {
    pub buf: &'a mut Buffer,
    /// The full screen area this frame may draw into.
    pub area: Rect,
    /// The detected color capability of the terminal (auto-degrade target).
    pub color_level: ColorLevel,
    /// Currently focused component index (keyboard navigation).
    focus: usize,
    /// Running counter of focusable components registered this frame.
    count: usize,
    /// A focus request raised by a click this frame.
    requested: Option<usize>,
}

impl<'a> Frame<'a> {
    pub closed spec fn target(&self) -> &'a mut Buffer {
        self.buf
    }

    pub closed spec fn area_spec(&self) -> Rect {
        self.area
    }

    pub closed spec fn level_spec(&self) -> ColorLevel {
        self.color_level
    }

    /// The index of the focused component.
    pub closed spec fn focus_spec(&self) -> usize {
        self.focus
    }

    /// How many focusable components registered so far.
    pub closed spec fn count_spec(&self) -> usize {
        self.count
    }

    /// The focus request raised this frame, if any.
    pub closed spec fn requested_spec(&self) -> Option<usize> {
        self.requested
    }

    /// The frame's state apart from its buffer is unchanged.
    pub open spec fn same_state(&self, o: &Frame<'a>) -> bool {
        &&& self.area_spec() == o.area_spec()
        &&& self.level_spec() == o.level_spec()
        &&& self.focus_spec() == o.focus_spec()
        &&& self.count_spec() == o.count_spec()
        &&& self.requested_spec() == o.requested_spec()
    }

    pub fn new(buf: &'a mut Buffer, area: Rect, focus: usize, color_level: ColorLevel) -> (f: Frame<'a>)
        ensures
            *f.target() == *old(buf),
            *final(f.target()) == *final(buf),
            f.area_spec() == area,
            f.level_spec() == color_level,
            f.focus_spec() == focus,
            f.count_spec() == 0,
            f.requested_spec() is None,
    {
        Frame { buf, area, color_level, focus, count: 0, requested: None }
    }

    /// Takes the focus request raised this frame, leaving none.
    pub fn take_request(&mut self) -> (r: Option<usize>)
        ensures
            r == old(self).requested_spec(),
            final(self).requested_spec() is None,
            *final(self).target() == *old(self).target(),
            *final(final(self).target()) == *final(old(self).target()),
            final(self).area_spec() == old(self).area_spec(),
            final(self).level_spec() == old(self).level_spec(),
            final(self).focus_spec() == old(self).focus_spec(),
            final(self).count_spec() == old(self).count_spec(),
    {
        let r = self.requested;
        self.requested = None;
        r
    }

    /// Register a focusable component; returns whether it is focused.
    /// Each call assigns the next sequential id.
    pub fn register_focus(&mut self) -> (focused: bool)
        requires
            old(self).count_spec() < usize::MAX,
        ensures
            focused == (old(self).focus_spec() == old(self).count_spec()
                || old(self).requested_spec() == Some(old(self).count_spec())),
            final(self).count_spec() == old(self).count_spec() + 1,
            *final(self).target() == *old(self).target(),
            *final(final(self).target()) == *final(old(self).target()),
            final(self).area_spec() == old(self).area_spec(),
            final(self).level_spec() == old(self).level_spec(),
            final(self).focus_spec() == old(self).focus_spec(),
            final(self).requested_spec() == old(self).requested_spec(),
    {
        let idx = self.count;
        self.count = self.count + 1;
        self.focus == idx || self.requested == Some(idx)
    }

    /// Request that the component with the given id receive focus
    /// (used when it is clicked).
    pub fn request_focus(&mut self, id: usize)
        ensures
            final(self).requested_spec() == Some(id),
            *final(self).target() == *old(self).target(),
            *final(final(self).target()) == *final(old(self).target()),
            final(self).area_spec() == old(self).area_spec(),
            final(self).level_spec() == old(self).level_spec(),
            final(self).focus_spec() == old(self).focus_spec(),
            final(self).count_spec() == old(self).count_spec(),
    {
        self.requested = Some(id);
    }

    /// The number of focusable components registered so far this frame.
    pub fn focus_count(&self) -> (n: usize)
        ensures
            n == self.count_spec(),
    {
        self.count
    }

    /// A [`Canvas`] for low-level drawing into this frame's buffer.
    pub fn canvas(&mut self) -> (c: Canvas<'_>)
        ensures
            *c.target() == *old(self).target(),
            *final(c.target()) == *final(self).target(),
            c.clip_rect() == old(self).target().area,
            *final(final(self).target()) == *final(old(self).target()),
            final(self).same_state(old(self)),
    {
        Canvas::new(self.buf)
    }
    /// Write `s` into the frame's buffer at `(x, y)` (see [`Buffer::write_str`]).
    pub(crate) fn write_text(&mut self, x: u16, y: u16, s: &str, st: Style)
        requires
            old(self).target().wf(),
        ensures
            final(self).target().wf(),
            final(self).target().area == old(self).target().area,
            forall|a: int, b: int|
                #[trigger] final(self).target().cell(a, b) == old(self).target().text_cell(x as int, y as int, s@, st, a, b),
            *final(final(self).target()) == *final(old(self).target()),
            final(self).same_state(old(self)),
    {
        self.buf.write_str(x, y, s, st);
    }

    /// Set one cell of the frame's buffer (see [`Buffer::put`]).
    pub(crate) fn put_cell(&mut self, x: u16, y: u16, ch: char, st: Style)
        requires
            old(self).target().wf(),
        ensures
            final(self).target().wf(),
            final(self).target().area == old(self).target().area,
            forall|a: int, b: int|
                #[trigger] final(self).target().cell(a, b) == if a == x && b == y && old(self).target().in_bounds(a, b) {
                    Cell { ch, style: st }
                } else {
                    old(self).target().cell(a, b)
                },
            *final(final(self).target()) == *final(old(self).target()),
            final(self).same_state(old(self)),
    {
        self.buf.put(x, y, ch, st);
    }
    /// The full screen area this frame may draw into.
    pub fn area(&self) -> (r: Rect)
        ensures
            r == self.area_spec(),
    {
        self.area
    }

    /// The color capability of the terminal.
    pub fn level(&self) -> (l: ColorLevel)
        ensures
            l == self.level_spec(),
    {
        self.color_level
    }
    /// The frame's buffer, for widgets that draw into a buffer.
    pub fn buffer(&mut self) -> (b: &mut Buffer)
        ensures
            *b == *old(self).target(),
            *final(b) == *final(self).target(),
            *final(final(self).target()) == *final(old(self).target()),
            final(self).same_state(old(self)),
    {
        &mut *self.buf
    }
}

} // verus!
