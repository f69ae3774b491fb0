//! The application runtime's decisions: which events quit, cycle focus or
//! redraw, and how a drawn frame becomes terminal output.
//!
//! Reading input, the clock and the terminal size, and writing the output,
//! are left to the caller, which runs the loop: it hands each event to
//! [`AppState::route`], draws the returned event into the frame from
//! [`AppState::frame`], and writes what [`AppState::finish`] returns.
use vstd::prelude::*;
use crate::buffer::{blank_cell, Buffer};
use crate::color::ColorLevel;
use crate::event::{Event, KeyCode};
use crate::frame::Frame;
use crate::layout::Rect;

verus! {

/// Returned by the render callback to control the run loop.
#[derive(Clone, Copy, Debug, PartialEq, Eq, Structural)]
pub enum Flow {
    /// Keep rendering.
    Continue,
    /// Stop the loop and restore the terminal.
    Quit,
}

/// What the run loop does with an incoming event.
#[derive(Clone, Copy, Debug, PartialEq, Eq, Structural)]
pub enum Step {
    /// Stop the loop.
    Quit,
    /// Draw a frame for this event.
    Draw(Event),
}

/// The screen buffers and focus state of a running application.
pub struct AppState {
    buf: Buffer,
    prev: Buffer,
    focus: usize,
    last_focus_count: usize,
    width: u16,
    height: u16,
    tab_cycle: bool,
}

/// The decision for `ev` with focus `focus`, `count` focusable components in
/// the last frame, Tab cycling the focus when `tab`, and the screen size going
/// from `size` to `now`: the focus afterwards, and the step.
pub open spec fn route_spec(ev: Event, focus: int, count: int, tab: bool, size: (u16, u16), now: (u16, u16)) -> (int, Step) {
    match ev {
        Event::Key(k) if k.ctrl && k.code == KeyCode::Char('c') => (focus, Step::Quit),
        Event::Key(k) if tab && k.code == KeyCode::Tab => (
            (focus + 1) % (if count > 1 { count } else { 1 }),
            Step::Draw(Event::Tick),
        ),
        _ => if now != size {
            (focus, Step::Draw(Event::Resize(now.0, now.1)))
        } else {
            (focus, Step::Draw(ev))
        },
    }
}

/// Whether `ev` is a key that [`route_spec`] decides on by itself: Ctrl-C,
/// or Tab when `tab` (Tab cycles the focus).
pub open spec fn is_control_key(ev: Event, tab: bool) -> bool {
    ev matches Event::Key(k) && ((k.ctrl && k.code == KeyCode::Char('c')) || (tab && k.code == KeyCode::Tab))
}

impl AppState {
    pub closed spec fn buf_spec(&self) -> Buffer {
        self.buf
    }

    pub closed spec fn prev_spec(&self) -> Buffer {
        self.prev
    }

    /// The index of the focused component.
    pub closed spec fn focus_spec(&self) -> usize {
        self.focus
    }

    /// How many focusable components the last frame registered.
    pub closed spec fn count_spec(&self) -> usize {
        self.last_focus_count
    }

    /// The screen size the buffers were made for.
    pub closed spec fn size_spec(&self) -> (u16, u16) {
        (self.width, self.height)
    }

    /// Whether Tab cycles the focus (else it is drawn like any key).
    pub closed spec fn tab_spec(&self) -> bool {
        self.tab_cycle
    }

    /// Both buffers are well formed.
    pub open spec fn wf(&self) -> bool {
        self.buf_spec().wf() && self.prev_spec().wf()
    }

    /// Blank buffers for a `w`×`h` screen.
    pub fn new(w: u16, h: u16) -> (s: AppState)
        ensures
            s.wf(),
            s.size_spec() == (w, h),
            s.buf_spec().area == (Rect { x: 0, y: 0, w, h }),
            s.prev_spec().area == (Rect { x: 0, y: 0, w, h }),
            forall|x: int, y: int| s.buf_spec().in_bounds(x, y) ==> #[trigger] s.buf_spec().cell(x, y) == blank_cell(),
            forall|x: int, y: int| s.prev_spec().in_bounds(x, y) ==> #[trigger] s.prev_spec().cell(x, y) == blank_cell(),
            s.focus_spec() == 0,
            s.count_spec() == 0,
            s.tab_spec(),
    {
        let area = Rect::new(0, 0, w, h);
        AppState {
            buf: Buffer::empty(area),
            prev: Buffer::empty(area),
            focus: 0,
            last_focus_count: 0,
            width: w,
            height: h,
            tab_cycle: true,
        }
    }

    /// Whether Tab cycles the focus (on by default); with it off, Tab is
    /// drawn like any other key, for a program that uses Tab itself.
    pub fn tab_cycle(&mut self, on: bool)
        ensures
            final(self).tab_spec() == on,
            final(self).wf() == old(self).wf(),
            final(self).buf_spec() == old(self).buf_spec(),
            final(self).prev_spec() == old(self).prev_spec(),
            final(self).focus_spec() == old(self).focus_spec(),
            final(self).count_spec() == old(self).count_spec(),
            final(self).size_spec() == old(self).size_spec(),
    {
        self.tab_cycle = on;
    }

    /// Whether Tab cycles the focus.
    pub fn tab_cycling(&self) -> (b: bool)
        ensures
            b == self.tab_spec(),
    {
        self.tab_cycle
    }

    /// The screen size the buffers were made for.
    pub fn size(&self) -> (r: (u16, u16))
        ensures
            r == self.size_spec(),
    {
        (self.width, self.height)
    }

    /// The index of the focused component.
    pub fn focus(&self) -> (f: usize)
        ensures
            f == self.focus_spec(),
    {
        self.focus
    }

    /// Whether both buffers hold one cell per position (drawing through a
    /// frame's public buffer may have changed that).
    pub fn buffers_ok(&self) -> (b: bool)
        ensures
            b == self.wf(),
    {
        let n = self.buf.cells.len();
        let m = self.prev.cells.len();
        proof {
            let (w, h) = (self.buf.area.w as int, self.buf.area.h as int);
            assert(0 <= w * h <= 65535 * 65535) by (nonlinear_arith)
                requires 0 <= w <= 65535, 0 <= h <= 65535;
            let (w2, h2) = (self.prev.area.w as int, self.prev.area.h as int);
            assert(0 <= w2 * h2 <= 65535 * 65535) by (nonlinear_arith)
                requires 0 <= w2 <= 65535, 0 <= h2 <= 65535;
        }
        n as u64 == self.buf.area.w as u64 * self.buf.area.h as u64 && m as u64 == self.prev.area.w as u64
            * self.prev.area.h as u64
    }

    /// Decide what to do with `ev`, the screen now measuring `now`.
    /// Ctrl-C quits; Tab moves the focus to the next component and redraws;
    /// a changed size resizes the buffers and redraws with a resize event;
    /// anything else is drawn as it is.
    pub fn route(&mut self, ev: Event, now: (u16, u16)) -> (s: Step)
        requires
            old(self).wf(),
            ev matches Event::Key(k) && old(self).tab_spec() && k.code == KeyCode::Tab ==> old(self).focus_spec() < usize::MAX,
        ensures
            final(self).wf(),
            (final(self).focus_spec() as int, s) == route_spec(
                ev,
                old(self).focus_spec() as int,
                old(self).count_spec() as int,
                old(self).tab_spec(),
                old(self).size_spec(),
                now,
            ),
            final(self).count_spec() == old(self).count_spec(),
            final(self).tab_spec() == old(self).tab_spec(),
            !is_control_key(ev, old(self).tab_spec()) && now != old(self).size_spec() ==> ({
                let area = Rect { x: 0, y: 0, w: now.0, h: now.1 };
                &&& final(self).size_spec() == now
                &&& final(self).buf_spec().area == area
                &&& final(self).prev_spec().area == area
                &&& forall|x: int, y: int| #[trigger] final(self).buf_spec().in_bounds(x, y) ==> final(self).buf_spec().cell(x, y)
                    == if old(self).buf_spec().in_bounds(x, y) {
                        old(self).buf_spec().cell(x, y)
                    } else {
                        blank_cell()
                    }
                &&& forall|x: int, y: int| #[trigger] final(self).prev_spec().in_bounds(x, y) ==> final(self).prev_spec().cell(x, y) == blank_cell()
            }),
            is_control_key(ev, old(self).tab_spec()) || now == old(self).size_spec() ==> final(self).size_spec() == old(self).size_spec()
                && final(self).buf_spec() == old(self).buf_spec() && final(self).prev_spec() == old(self).prev_spec(),
    {
        if let Event::Key(k) = ev {
            if k.is_ctrl('c') {
                return Step::Quit;
            }
            if self.tab_cycle && k.is_tab() {
                let n = if self.last_focus_count > 1 {
                    self.last_focus_count
                } else {
                    1
                };
                self.focus = (self.focus + 1) % n;
                return Step::Draw(Event::Tick);
            }
        }
        if now.0 != self.width || now.1 != self.height {
            self.width = now.0;
            self.height = now.1;
            let area = Rect::new(0, 0, now.0, now.1);
            self.buf.resize(area);
            self.prev = Buffer::empty(area);
            return Step::Draw(Event::Resize(now.0, now.1));
        }
        Step::Draw(ev)
    }

    /// Start a frame: the buffer is cleared and handed out with the focus state.
    pub fn frame(&mut self, level: ColorLevel) -> (f: Frame<'_>)
        requires
            old(self).wf(),
        ensures
            f.target().wf(),
            f.target().area == old(self).buf_spec().area,
            forall|x: int, y: int| f.target().in_bounds(x, y) ==> #[trigger] f.target().cell(x, y) == blank_cell(),
            *final(f.target()) == final(self).buf_spec(),
            f.area_spec() == old(self).buf_spec().area,
            f.level_spec() == level,
            f.focus_spec() == old(self).focus_spec(),
            f.count_spec() == 0,
            f.requested_spec() is None,
            final(self).prev_spec() == old(self).prev_spec(),
            final(self).focus_spec() == old(self).focus_spec(),
            final(self).count_spec() == old(self).count_spec(),
            final(self).size_spec() == old(self).size_spec(),
            final(self).tab_spec() == old(self).tab_spec(),
    {
        self.buf.clear();
        let area = self.buf.area;
        Frame::new(&mut self.buf, area, self.focus, level)
    }

    /// Finish a frame whose components asked for focus `requested` and
    /// numbered `count`: the focus follows the request, and the output that
    /// brings the screen from the previous frame to this one is returned;
    /// this frame becomes the previous one.
    pub fn finish(&mut self, requested: Option<usize>, count: usize, level: ColorLevel) -> (out: String)
        requires
            old(self).wf(),
        ensures
            out@ == old(self).buf_spec().diff_spec(Some(&old(self).prev_spec()), level),
            final(self).wf(),
            final(self).focus_spec() == match requested {
                Some(r) => r,
                None => old(self).focus_spec(),
            },
            final(self).count_spec() == count,
            final(self).buf_spec() == old(self).buf_spec(),
            final(self).prev_spec().area == old(self).buf_spec().area,
            final(self).prev_spec().cells_spec() == old(self).buf_spec().cells_spec(),
            final(self).size_spec() == old(self).size_spec(),
            final(self).tab_spec() == old(self).tab_spec(),
    {
        if let Some(r) = requested {
            self.focus = r;
        }
        self.last_focus_count = count;
        let out = self.buf.diff(Some(&self.prev), level);
        self.prev = self.buf.snapshot();
        out
    }
}

} // verus!
