//! A tiny interactive terminal: an input line at the bottom, and the lines
//! entered so far above it.
use vstd::prelude::*;
use crate::color::Color;
use crate::event::Event;
use crate::frame::Frame;
use crate::layout::{sat_sub, Align, Rect};
use crate::paint::{fg_style, layer_ops, lemma_drawn_paints, lemma_paints_compose, lemma_paints_refl, lemma_rows_paint, paints, Op};
use crate::widgets::input::{input_claims_focus, input_step, Input, InputModel};
use crate::widgets::text::{rows_at, rows_shown, text_rows, Text};
use crate::apps::snake::text_ops;

verus! {

/// The terminal program of the desktop.
pub struct TermApp {
    hist: Vec<String>,
    input: Input,
}

/// The input line of a window body `area`: its bottom row.
pub open spec fn input_bar(area: Rect) -> Rect {
    Rect { x: area.x, y: sat_sub(area.bottom_spec(), 1) as u16, w: area.w, h: 1 }
}

/// How many of `n` remaining lines fit in a body from row `top` down to the input line at `bar_y`.
pub open spec fn lines_shown(n: int, top: int, bar_y: int) -> int {
    if n <= 0 {
        0
    } else {
        let room = if bar_y - top >= 1 {
            bar_y - top
        } else {
            1
        };
        if n <= room {
            n
        } else {
            room
        }
    }
}

/// The first `k` history lines shown from line `start`, one per row from `area`'s top.
pub open spec fn hist_ops(hist: Seq<Seq<char>>, area: Rect, start: int, k: int) -> Seq<Op>
    decreases k,
{
    if k <= 0 {
        seq![]
    } else {
        hist_ops(hist, area, start, k - 1) + text_ops(
            Rect { x: area.x, y: (area.y + (k - 1)) as u16, w: area.w, h: 1 },
            hist[start + k - 1],
            fg_style(Color::BrightGreen),
        )
    }
}

impl TermApp {
    /// The lines entered so far, oldest first.
    pub closed spec fn hist_spec(&self) -> Seq<Seq<char>> {
        self.hist@.map_values(|s: String| s@)
    }

    /// The input line.
    pub closed spec fn input_spec(&self) -> Input {
        self.input
    }

    /// The first history line where a body `area` starts showing the history:
    /// as many of the latest lines as there are rows above the input line.
    pub open spec fn first_shown(&self, area: Rect) -> int {
        let max_lines = sat_sub(area.h as int, 1);
        sat_sub(self.hist_spec().len() as int, max_lines)
    }

    /// A greeting line and an empty input with a hint and a 200-character limit.
    pub fn new() -> (t: TermApp)
        ensures
            t.hist_spec() == seq!["ratatui-plus terminal — type and press Enter"@],
            t.input_spec().wf(),
            t.input_spec().model() == (InputModel { value: seq![], cursor: 0, focused: false, submitted: false, changed: false }),
            t.input_spec().hint_spec() == "command"@,
            t.input_spec().max_spec() == Some(200usize),
            t.input_spec().rect_spec() == (Rect { x: 0, y: 0, w: 30, h: 1 }),
    {
        let hist = vec!["ratatui-plus terminal — type and press Enter".to_string()];
        let input = Input::new(Rect::new(0, 0, 30, 1)).hint("command").max(200);
        let t = TermApp { hist, input };
        assert(t.hist_spec() =~= seq!["ratatui-plus terminal — type and press Enter"@]);
        t
    }

    /// The window title.
    pub fn title(&self) -> (t: String)
        ensures
            t@ == "Terminal"@,
    {
        "Terminal".to_string()
    }

    /// The smallest window the terminal fits in.
    pub fn min_size(&self) -> (r: (u16, u16))
        ensures
            r == (44u16, 14u16),
    {
        (44, 14)
    }

    /// React to an event in a window whose body is `area`: the input line
    /// moves to the body's bottom row and takes the event; a submitted
    /// non-empty line is added to the history, and the input is cleared.
    pub fn handle(&mut self, ev: &Event, frame: &mut Frame, area: Rect)
        requires
            old(self).input_spec().wf(),
        ensures
            ({
                let bar = input_bar(area);
                let m = input_step(old(self).input_spec().model(), bar, old(self).input_spec().max_spec(), *ev);
                &&& final(self).hist_spec() == if m.submitted && m.value.len() > 0 {
                    old(self).hist_spec().push(m.value)
                } else {
                    old(self).hist_spec()
                }
                &&& final(self).input_spec().model() == if m.submitted {
                    InputModel { value: seq![], cursor: 0, ..m }
                } else {
                    m
                }
                &&& final(self).input_spec().wf()
                &&& final(self).input_spec().rect_spec() == bar
                &&& final(self).input_spec().hint_spec() == old(self).input_spec().hint_spec()
                &&& final(self).input_spec().max_spec() == old(self).input_spec().max_spec()
                &&& final(self).input_spec().id_spec() == old(self).input_spec().id_spec()
                &&& final(frame).requested_spec() == if input_claims_focus(bar, *ev) {
                    Some(old(self).input_spec().id_spec())
                } else {
                    old(frame).requested_spec()
                }
            }),
            *final(frame).target() == *old(frame).target(),
            *final(final(frame).target()) == *final(old(frame).target()),
            final(frame).area_spec() == old(frame).area_spec(),
            final(frame).level_spec() == old(frame).level_spec(),
            final(frame).focus_spec() == old(frame).focus_spec(),
            final(frame).count_spec() == old(frame).count_spec(),
    {
        let bar = Rect::new(area.x, area.bottom().saturating_sub(1), area.w, 1);
        self.input.set_rect(bar);
        self.input.handle(ev, frame);
        if self.input.submitted() {
            let line = self.input.value();
            if line.as_str().unicode_len() > 0 {
                let ghost before = self.hist_spec();
                self.hist.push(line);
                assert(self.hist_spec() =~= before.push(line@));
            }
            self.input.clear();
        }
    }
    /// Draw into the window body `area`: the latest history lines from the
    /// top, as many as fit above the input line, then the input line.
    pub fn draw(&mut self, frame: &mut Frame, area: Rect)
        requires
            old(frame).target().wf(),
            old(self).input_spec().wf(),
            old(self).input_spec().model().value.len() < usize::MAX,
            old(frame).count_spec() < usize::MAX,
            area.y < 65535,
        ensures
            ({
                let bar = input_bar(area);
                let start = old(self).first_shown(area);
                let k = lines_shown(old(self).hist_spec().len() - start, area.y as int, bar.y as int);
                let focused = old(frame).focus_spec() == old(frame).count_spec() || old(frame).requested_spec() == Some(
                    old(frame).count_spec(),
                );
                &&& paints(
                    *old(frame).target(),
                    *final(frame).target(),
                    hist_ops(old(self).hist_spec(), area, start, k) + layer_ops(
                        final(self).input_spec().layers_spec(focused),
                        old(frame).target().area,
                    ),
                )
                &&& final(self).input_spec().rect_spec() == bar
                &&& final(self).input_spec().model() == if focused {
                    InputModel { focused: true, ..old(self).input_spec().model() }
                } else {
                    old(self).input_spec().model()
                }
                &&& final(self).input_spec().wf()
                &&& final(self).input_spec().id_spec() == old(frame).count_spec()
            }),
            final(self).hist_spec() == old(self).hist_spec(),
            final(frame).count_spec() == old(frame).count_spec() + 1,
            final(frame).area_spec() == old(frame).area_spec(),
            final(frame).level_spec() == old(frame).level_spec(),
            final(frame).focus_spec() == old(frame).focus_spec(),
            final(frame).requested_spec() == old(frame).requested_spec(),
            *final(final(frame).target()) == *final(old(frame).target()),
    {
        let ghost b0 = *frame.target();
        let ghost h = self.hist_spec();
        let bar = Rect::new(area.x, area.bottom().saturating_sub(1), area.w, 1);
        self.input.set_rect(bar);
        let max_lines = area.h.saturating_sub(1) as usize;
        let n = self.hist.len();
        let start = n.saturating_sub(max_lines);
        let mut i = start;
        let mut y = area.y;
        proof {
            lemma_paints_refl(b0);
        }
        while i < n
            invariant_except_break
                i - start <= lines_shown(n - start, area.y as int, bar.y as int),
                y < bar.y || i == start,
            invariant
                start <= i <= n,
                n == h.len(),
                h == self.hist_spec(),
                y == area.y + (i - start),
                area.y < 65535,
                bar == input_bar(area),
                start == self.first_shown(area),
                frame.target().wf(),
                frame.target().area == b0.area,
                frame.same_state(old(frame)),
                *final(frame.target()) == *final(old(frame).target()),
                paints(b0, *frame.target(), hist_ops(h, area, start as int, i - start)),
            ensures
                i - start == lines_shown(n - start, area.y as int, bar.y as int),
                frame.target().wf(),
                frame.same_state(old(frame)),
                *final(frame.target()) == *final(old(frame).target()),
                paints(b0, *frame.target(), hist_ops(h, area, start as int, i - start)),
            decreases n - i,
        {
            let r = Rect::new(area.x, y, area.w, 1);
            let ghost before = *frame.target();
            {
                let buf = frame.buffer();
                Text::new(buf, r).fg(Color::BrightGreen).draw(self.hist[i].as_str());
            }
            proof {
                let t = self.hist@[i as int]@;
                assert(t == h[i as int]);
                let rows = text_rows(t, false, r.w as int);
                lemma_rows_paint(before, *frame.target(), rows, rows_at(r, Align::Left, rows), fg_style(Color::BrightGreen), rows_shown(r, rows));
                lemma_paints_compose(
                    b0,
                    before,
                    *frame.target(),
                    hist_ops(h, area, start as int, i - start),
                    text_ops(r, t, fg_style(Color::BrightGreen)),
                );
                assert(r == Rect { x: area.x, y: (area.y + (i + 1 - start - 1)) as u16, w: area.w, h: 1 });
            }
            y = y + 1;
            i = i + 1;
            if y >= bar.y {
                break;
            }
        }
        let ghost b1 = *frame.target();
        let ghost mid = self.input;
        self.input.draw(frame);
        proof {
            let focused = old(frame).focus_spec() == old(frame).count_spec() || old(frame).requested_spec() == Some(
                old(frame).count_spec(),
            );
            assert(self.input.layers_spec(focused) == mid.layers_spec(focused));
            lemma_drawn_paints(b1, *frame.target(), b1.area, mid.layers_spec(focused));
            lemma_paints_compose(
                b0,
                b1,
                *frame.target(),
                hist_ops(h, area, start as int, i - start),
                layer_ops(mid.layers_spec(focused), b1.area),
            );
        }
    }
}

} // verus!
