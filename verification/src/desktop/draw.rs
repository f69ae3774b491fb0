//! Drawing the desktop: the background, the frame of each window, the
//! taskbar and the launcher. The programs draw their windows' bodies.
use vstd::prelude::*;
use crate::ansi::str_chars;
use crate::border::{border_of, double, thin};
use crate::buffer::Cell;
use crate::canvas::{border_layers, rect_shape};
use crate::color::{Color, ColorLevel};
use crate::frame::Frame;
use crate::layout::{sat_sub, Align, Rect};
use crate::paint::{
    border_clipped, fg_bg_style, fg_style, fill_clipped, fill_plain, layer_ops, lemma_paints_compose, lemma_paints_refl,
    lemma_text_paints, line_ops, paints, put_one, text_line, Op,
};
use crate::style::{plain_style, Style};
use super::{Desktop, Window};

verus! {

/// How a color level is named in the corner of the desktop.
pub open spec fn level_label(l: ColorLevel) -> Seq<char> {
    match l {
        ColorLevel::NoColor => "None"@,
        ColorLevel::Basic => "Basic"@,
        ColorLevel::Ansi256 => "Ansi256"@,
        ColorLevel::Rgb => "Rgb"@,
    }
}

fn level_label_exec(l: ColorLevel) -> (s: &'static str)
    ensures
        s@ == level_label(l),
{
    match l {
        ColorLevel::NoColor => "None",
        ColorLevel::Basic => "Basic",
        ColorLevel::Ansi256 => "Ansi256",
        ColorLevel::Rgb => "Rgb",
    }
}

/// Window `i` is drawn before window `j`: it is lower, or equally low and
/// earlier in the list.
pub open spec fn below(ws: Seq<Window>, i: int, j: int) -> bool {
    ws[i].z < ws[j].z || (ws[i].z == ws[j].z && i < j)
}

impl Desktop {
    /// What the background shows on a screen `screen` with color level `level`:
    /// the desktop color everywhere, the name in the middle, and the color
    /// level in the corner.
    pub open spec fn bg_ops(&self, area: Rect, screen: Rect, level: ColorLevel) -> Seq<Op> {
        layer_ops(seq![(rect_shape(screen), Cell { ch: ' ', style: Style { bg: self@.bg, ..plain_style() } })], area)
            + line_ops(screen.centered_spec(40, 1), "ratatui-plus desktop"@, Align::Center, fg_style(Color::Rgb(60, 60, 80)))
            + line_ops(
            Rect { x: (screen.x + 2) as u16, y: (screen.y + 1) as u16, w: 30, h: 1 },
            "color: "@ + level_label(level),
            Align::Left,
            fg_style(Color::Rgb(50, 50, 70)),
        )
    }

    /// Draw the desktop background over the frame's area.
    pub fn draw_bg(&self, frame: &mut Frame)
        requires
            old(frame).target().wf(),
            old(frame).area_spec().x + 2 <= 65535,
            old(frame).area_spec().y + 1 <= 65535,
            old(frame).area_spec().x + old(frame).area_spec().w / 2 <= 65535,
            old(frame).area_spec().y + old(frame).area_spec().h / 2 <= 65535,
        ensures
            paints(
                *old(frame).target(),
                *final(frame).target(),
                self.bg_ops(old(frame).target().area, old(frame).area_spec(), old(frame).level_spec()),
            ),
            *final(final(frame).target()) == *final(old(frame).target()),
            final(frame).same_state(old(frame)),
    {
        let screen = frame.area();
        let ghost b0 = *frame.target();
        fill_plain(frame, screen, ' ', Style::new().bg(self.bg));
        let ghost b1 = *frame.target();
        text_line(frame, screen.centered(40, 1), "ratatui-plus desktop", Align::Center, Style::new().fg(Color::rgb(60, 60, 80)));
        let ghost b2 = *frame.target();
        let mut label = String::new();
        label.append("color: ");
        label.append(level_label_exec(frame.level()));
        text_line(
            frame,
            Rect::new(screen.x + 2, screen.y + 1, 30, 1),
            label.as_str(),
            Align::Left,
            Style::new().fg(Color::rgb(50, 50, 70)),
        );
        proof {
            let o1 = layer_ops(seq![(rect_shape(screen), Cell { ch: ' ', style: Style { bg: self@.bg, ..plain_style() } })], b0.area);
            let o2 = line_ops(screen.centered_spec(40, 1), "ratatui-plus desktop"@, Align::Center, fg_style(Color::Rgb(60, 60, 80)));
            lemma_paints_compose(b0, b1, b2, o1, o2);
            lemma_paints_compose(b0, b2, *frame.target(), o1 + o2, line_ops(
                Rect { x: (screen.x + 2) as u16, y: (screen.y + 1) as u16, w: 30, h: 1 },
                "color: "@ + level_label(old(frame).level_spec()),
                Align::Left,
                fg_style(Color::Rgb(50, 50, 70)),
            ));
        }
    }
    /// The accent color of window `i`'s frame: cyan when focused.
    pub open spec fn accent(&self, i: int) -> Color {
        if i == self@.focused {
            Color::Cyan
        } else {
            Color::BrightBlack
        }
    }

    /// What the frame of window `i` with title `title` shows: a thin border,
    /// the title on the top edge, a close button at its right end and a
    /// resize grip in the bottom-right corner.
    pub open spec fn window_ops(&self, area: Rect, i: int, title: Seq<char>) -> Seq<Op> {
        let r = self@.windows[i].rect;
        let accent = self.accent(i);
        let tstyle = if i == self@.focused {
            fg_bg_style(Color::White, Color::Blue)
        } else {
            fg_bg_style(Color::BrightBlack, Color::Black)
        };
        layer_ops(border_layers(r, border_of('┌', '┐', '└', '┘', '─', '│'), fg_style(accent)), area.intersect_spec(r))
            + seq![
            Op::Text(r.x + 1, r.y as int, seq![' '] + title + seq![' '], tstyle),
            Op::Text(sat_sub(r.right_spec(), 2), r.y as int, seq!['×'], fg_style(Color::Red)),
            Op::Text(sat_sub(r.right_spec(), 1), sat_sub(r.bottom_spec(), 1), seq!['╲'], fg_style(accent)),
        ]
    }

    /// Draw the frame of window `i` around its body (which its program draws).
    pub fn draw_window_frame(&self, frame: &mut Frame, i: usize, title: &str)
        requires
            old(frame).target().wf(),
            i < self@.windows.len(),
            self@.windows[i as int].rect.x < 65535,
        ensures
            paints(*old(frame).target(), *final(frame).target(), self.window_ops(old(frame).target().area, i as int, title@)),
            *final(final(frame).target()) == *final(old(frame).target()),
            final(frame).same_state(old(frame)),
    {
        let w = self.windows[i];
        let r = w.rect;
        let focused = i == self.focused;
        let accent = if focused {
            Color::Cyan
        } else {
            Color::BrightBlack
        };
        let ghost b0 = *frame.target();
        border_clipped(frame, r, thin(), Style::new().fg(accent));
        let ghost b1 = *frame.target();
        let tstyle = if focused {
            Style::new().fg(Color::White).bg(Color::Blue)
        } else {
            Style::new().fg(Color::BrightBlack).bg(Color::Black)
        };
        let mut ttext = String::new();
        ttext.append(" ");
        ttext.append(title);
        ttext.append(" ");
        let ghost b2a = *frame.target();
        frame.write_text(r.x + 1, r.y, ttext.as_str(), tstyle);
        let ghost b2 = *frame.target();
        proof {
            reveal_strlit(" ");
            lemma_text_paints(b2a, b2, r.x + 1, r.y as int, ttext@, tstyle);
            assert(ttext@ =~= seq![' '] + title@ + seq![' ']);
        }
        put_one(frame, r.right().saturating_sub(2), r.y, '×', Style::new().fg(Color::Red));
        let ghost b3 = *frame.target();
        put_one(frame, r.right().saturating_sub(1), r.bottom().saturating_sub(1), '╲', Style::new().fg(accent));
        proof {
            let o1 = layer_ops(border_layers(r, border_of('┌', '┐', '└', '┘', '─', '│'), fg_style(accent)), b0.area.intersect_spec(r));
            let o2 = seq![Op::Text(r.x + 1, r.y as int, seq![' '] + title@ + seq![' '], tstyle)];
            let o3 = seq![Op::Text(sat_sub(r.right_spec(), 2), r.y as int, seq!['×'], fg_style(Color::Red))];
            let o4 = seq![Op::Text(sat_sub(r.right_spec(), 1), sat_sub(r.bottom_spec(), 1), seq!['╲'], fg_style(accent))];
            lemma_paints_compose(b0, b1, b2, o1, o2);
            lemma_paints_compose(b0, b2, b3, o1 + o2, o3);
            lemma_paints_compose(b0, b3, *frame.target(), o1 + o2 + o3, o4);
            assert(o1 + o2 + o3 + o4 =~= self.window_ops(b0.area, i as int, title@));
        }
    }
    /// How many windows get a button on a taskbar at `bar`.
    pub open spec fn task_count(&self, bar: Rect) -> int {
        let fit = (bar.right_spec() - bar.x) / 18;
        if self@.windows.len() <= fit {
            self@.windows.len() as int
        } else {
            fit
        }
    }

    /// The button of window `i`: a marker when focused, then the title.
    pub open spec fn task_label(&self, i: int, titles: Seq<Seq<char>>) -> Seq<char> {
        (if i == self@.focused {
            "▸"@
        } else {
            " "@
        }) + titles[i]
    }

    /// The style of window `i`'s button.
    pub open spec fn task_style(&self, i: int) -> Style {
        if i == self@.focused {
            fg_bg_style(Color::Black, Color::Cyan)
        } else {
            fg_bg_style(Color::White, Color::Rgb(30, 30, 46))
        }
    }

    /// The first `n` taskbar buttons, each 18 columns wide.
    pub open spec fn task_ops(&self, bar: Rect, titles: Seq<Seq<char>>, n: int) -> Seq<Op>
        decreases n,
    {
        if n <= 0 {
            seq![]
        } else {
            self.task_ops(bar, titles, n - 1).push(
                Op::Text(bar.x + 18 * (n - 1), bar.y as int, self.task_label(n - 1, titles), self.task_style(n - 1)),
            )
        }
    }

    /// What the taskbar at `bar` shows: its background, a button per window
    /// as far as they fit, and the clock at the right end.
    pub open spec fn taskbar_ops(&self, area: Rect, bar: Rect, titles: Seq<Seq<char>>, clock: Seq<char>) -> Seq<Op> {
        layer_ops(
            seq![(rect_shape(bar), Cell { ch: ' ', style: fg_bg_style(Color::White, Color::Rgb(30, 30, 46)) })],
            area.intersect_spec(bar),
        ) + self.task_ops(bar, titles, self.task_count(bar)) + seq![
            Op::Text(
                sat_sub(bar.right_spec(), (clock.len() % 65536) + 1 as int),
                bar.y as int,
                clock,
                fg_bg_style(Color::BrightGreen, Color::Rgb(30, 30, 46)),
            ),
        ]
    }

    /// Every taskbar position the drawing computes stays on the `u16` grid.
    pub open spec fn taskbar_fits(&self, bar: Rect) -> bool {
        let last = if self@.windows.len() - 1 <= self.task_count(bar) {
            self@.windows.len() - 1
        } else {
            self.task_count(bar)
        };
        self@.windows.len() > 0 ==> bar.x + 18 * last + 18 <= 65535
    }

    /// Draw the taskbar at `bar`, with `titles[i]` the title of window `i`
    /// and `clock` the time shown at its right end.
    pub fn draw_taskbar(&self, frame: &mut Frame, bar: Rect, titles: &Vec<String>, clock: &str)
        requires
            old(frame).target().wf(),
            titles@.len() == self@.windows.len(),
            self.taskbar_fits(bar),
            clock@.len() % 65536 != 65535,
        ensures
            paints(
                *old(frame).target(),
                *final(frame).target(),
                self.taskbar_ops(old(frame).target().area, bar, titles@.map_values(|t: String| t@), clock@),
            ),
            *final(final(frame).target()) == *final(old(frame).target()),
            final(frame).same_state(old(frame)),
    {
        let ghost b0 = *frame.target();
        let ghost ts = titles@.map_values(|t: String| t@);
        let st = Style::new().fg(Color::White).bg(Color::rgb(30, 30, 46));
        fill_clipped(frame, bar, bar, ' ', st);
        let ghost fill = *frame.target();
        let ghost o1 = layer_ops(
            seq![(rect_shape(bar), Cell { ch: ' ', style: fg_bg_style(Color::White, Color::Rgb(30, 30, 46)) })],
            b0.area.intersect_spec(bar),
        );
        assert(paints(b0, fill, o1));
        let right = bar.right();
        let mut i: usize = 0;
        proof {
            lemma_paints_refl(fill);
            assert(o1 + self.task_ops(bar, ts, 0) =~= o1);
        }
        while i < self.windows.len()
            invariant_except_break
                i <= self.task_count(bar),
            invariant
                i <= self@.windows.len(),
                i <= self.task_count(bar) || i == 0,
                titles@.len() == self@.windows.len(),
                ts == titles@.map_values(|t: String| t@),
                self.taskbar_fits(bar),
                right == bar.right_spec(),
                st == fg_bg_style(Color::White, Color::Rgb(30, 30, 46)),
                frame.target().wf(),
                frame.same_state(old(frame)),
                *final(frame.target()) == *final(old(frame).target()),
                paints(b0, *frame.target(), o1 + self.task_ops(bar, ts, i as int)),
            ensures
                i == self.task_count(bar),
                paints(b0, *frame.target(), o1 + self.task_ops(bar, ts, self.task_count(bar))),
                frame.target().wf(),
                frame.same_state(old(frame)),
                *final(frame.target()) == *final(old(frame).target()),
            decreases self@.windows.len() - i,
        {
            let x = bar.x as usize + i * 18;
            if x + 18 > right as usize {
                break;
            }
            let active = i == self.focused;
            let mut lbl = String::new();
            lbl.append(if active {
                "▸"
            } else {
                " "
            });
            lbl.append(titles[i].as_str());
            let s = if active {
                Style::new().fg(Color::Black).bg(Color::Cyan)
            } else {
                st
            };
            let ghost before = *frame.target();
            frame.write_text(x as u16, bar.y, lbl.as_str(), s);
            proof {
                assert(ts[i as int] == titles@[i as int]@);
                assert(lbl@ == self.task_label(i as int, ts));
                lemma_text_paints(before, *frame.target(), x as int, bar.y as int, lbl@, s);
                lemma_paints_compose(
                    b0,
                    before,
                    *frame.target(),
                    o1 + self.task_ops(bar, ts, i as int),
                    seq![Op::Text(x as int, bar.y as int, lbl@, s)],
                );
                assert(o1 + self.task_ops(bar, ts, i as int) + seq![Op::Text(x as int, bar.y as int, lbl@, s)]
                    =~= o1 + self.task_ops(bar, ts, i + 1));
            }
            i = i + 1;
        }
        let n = str_chars(clock).len();
        let len = n as u16;
        assert(len == n % 65536) by (bit_vector)
            requires len == n as u16;
        let cx = right.saturating_sub(len + 1);
        let ghost before = *frame.target();
        frame.write_text(cx, bar.y, clock, Style::new().fg(Color::BrightGreen).bg(Color::rgb(30, 30, 46)));
        proof {
            let o3 = seq![Op::Text(cx as int, bar.y as int, clock@, fg_bg_style(Color::BrightGreen, Color::Rgb(30, 30, 46)))];
            lemma_text_paints(before, *frame.target(), cx as int, bar.y as int, clock@, fg_bg_style(Color::BrightGreen, Color::Rgb(30, 30, 46)));
            lemma_paints_compose(b0, before, *frame.target(), o1 + self.task_ops(bar, ts, self.task_count(bar)), o3);
        }
    }
    /// The launcher's item rows, the first `n`: each name two columns in, the
    /// selected one highlighted.
    pub open spec fn item_ops(&self, r: Rect, n: int) -> Seq<Op>
        decreases n,
    {
        if n <= 0 {
            seq![]
        } else {
            self.item_ops(r, n - 1).push(
                Op::Text(
                    r.x + 2,
                    r.y + 2 + (n - 1),
                    self@.items[n - 1],
                    if n - 1 == self@.launcher_sel {
                        fg_bg_style(Color::Black, Color::Yellow)
                    } else {
                        fg_style(Color::White)
                    },
                ),
            )
        }
    }

    /// What the launcher shows: a double border, a heading, one row per
    /// item and a help line at the bottom.
    pub open spec fn launcher_ops(&self, area: Rect) -> Seq<Op> {
        let r = self@.launcher_rect_spec();
        layer_ops(border_layers(r, border_of('╔', '╗', '╚', '╝', '═', '║'), fg_style(Color::Yellow)), area.intersect_spec(r))
            + line_ops(
            Rect { x: (r.x + 1) as u16, y: (r.y + 1) as u16, w: (r.w - 2) as u16, h: 1 },
            "◆ Launch an app"@,
            Align::Left,
            fg_style(Color::BrightYellow),
        ) + self.item_ops(r, self@.items.len() as int) + line_ops(
            Rect { x: (r.x + 1) as u16, y: sat_sub(r.bottom_spec(), 1) as u16, w: (r.w - 2) as u16, h: 1 },
            "↑/↓ select · Enter open · F2 toggle"@,
            Align::Left,
            fg_style(Color::BrightBlack),
        )
    }

    /// Draw the launcher.
    pub fn draw_launcher(&self, frame: &mut Frame)
        requires
            old(frame).target().wf(),
            self@.wf(),
            self@.screen_fits(),
            self@.launcher_rect_spec().w >= 2,
            self@.launcher_rect_spec().x + 2 <= 65535,
            self@.launcher_rect_spec().y + 1 + self@.items.len() <= 65535,
        ensures
            paints(*old(frame).target(), *final(frame).target(), self.launcher_ops(old(frame).target().area)),
            *final(final(frame).target()) == *final(old(frame).target()),
            final(frame).same_state(old(frame)),
    {
        let ghost b0 = *frame.target();
        let r = self.launcher_rect();
        border_clipped(frame, r, double(), Style::new().fg(Color::Yellow));
        let ghost b1 = *frame.target();
        let ghost o1 = layer_ops(border_layers(r, border_of('╔', '╗', '╚', '╝', '═', '║'), fg_style(Color::Yellow)), b0.area.intersect_spec(r));
        text_line(frame, Rect::new(r.x + 1, r.y + 1, r.w - 2, 1), "◆ Launch an app", Align::Left, Style::new().fg(Color::BrightYellow));
        let ghost b2 = *frame.target();
        let ghost o2 = line_ops(
            Rect { x: (r.x + 1) as u16, y: (r.y + 1) as u16, w: (r.w - 2) as u16, h: 1 },
            "◆ Launch an app"@,
            Align::Left,
            fg_style(Color::BrightYellow),
        );
        proof {
            lemma_paints_compose(b0, b1, b2, o1, o2);
            lemma_paints_refl(b2);
            assert(o1 + o2 + self.item_ops(r, 0) =~= o1 + o2);
        }
        let mut i: usize = 0;
        while i < self.launcher_items.len()
            invariant
                i <= self@.items.len(),
                self@.wf(),
                r == self@.launcher_rect_spec(),
                r.x + 2 <= 65535,
                r.y + 1 + self@.items.len() <= 65535,
                frame.target().wf(),
                frame.same_state(old(frame)),
                *final(frame.target()) == *final(old(frame).target()),
                paints(b0, *frame.target(), o1 + o2 + self.item_ops(r, i as int)),
            decreases self@.items.len() - i,
        {
            let sel = i == self.launcher_sel;
            let s = if sel {
                Style::new().fg(Color::Black).bg(Color::Yellow)
            } else {
                Style::new().fg(Color::White)
            };
            let row = r.y + 2 + i as u16;
            let ghost before = *frame.target();
            frame.write_text(r.x + 2, row, self.launcher_items[i].as_str(), s);
            proof {
                assert(self@.items[i as int] == self.launcher_items@[i as int]@);
                lemma_text_paints(before, *frame.target(), r.x + 2, row as int, self@.items[i as int], s);
                lemma_paints_compose(
                    b0,
                    before,
                    *frame.target(),
                    o1 + o2 + self.item_ops(r, i as int),
                    seq![Op::Text(r.x + 2, row as int, self@.items[i as int], s)],
                );
                assert(o1 + o2 + self.item_ops(r, i as int) + seq![Op::Text(r.x + 2, row as int, self@.items[i as int], s)]
                    =~= o1 + o2 + self.item_ops(r, i + 1));
            }
            i = i + 1;
        }
        let ghost b3 = *frame.target();
        text_line(
            frame,
            Rect::new(r.x + 1, r.bottom().saturating_sub(1), r.w - 2, 1),
            "↑/↓ select · Enter open · F2 toggle",
            Align::Left,
            Style::new().fg(Color::BrightBlack),
        );
        proof {
            let o4 = line_ops(
                Rect { x: (r.x + 1) as u16, y: sat_sub(r.bottom_spec(), 1) as u16, w: (r.w - 2) as u16, h: 1 },
                "↑/↓ select · Enter open · F2 toggle"@,
                Align::Left,
                fg_style(Color::BrightBlack),
            );
            lemma_paints_compose(b0, b3, *frame.target(), o1 + o2 + self.item_ops(r, self@.items.len() as int), o4);
        }
    }
    /// The order to draw the windows in, bottom first: every window once,
    /// by `z`, and by position among windows with the same `z`.
    pub fn stacking(&self) -> (order: Vec<usize>)
        ensures
            order@.len() == self@.windows.len(),
            forall|k: int| 0 <= k < order@.len() ==> order@[k] < self@.windows.len(),
            forall|k1: int, k2: int|
                0 <= k1 < k2 < order@.len() ==> below(self@.windows, order@[k1] as int, order@[k2] as int),
    {
        let ghost ws = self@.windows;
        let n = self.windows.len();
        let mut order: Vec<usize> = Vec::new();
        let mut i: usize = 0;
        while i < n
            invariant
                n == ws.len(),
                ws == self@.windows,
                i <= n,
                order@.len() == i,
                forall|k: int| 0 <= k < order@.len() ==> order@[k] < i,
                forall|k1: int, k2: int|
                    0 <= k1 < k2 < order@.len() ==> below(ws, order@[k1] as int, order@[k2] as int),
            decreases n - i,
        {
            let zi = self.windows[i].z;
            let mut p: usize = 0;
            while p < order.len() && self.windows[order[p]].z <= zi
                invariant
                    p <= order@.len(),
                    order@.len() == i,
                    i < n,
                    n == ws.len(),
                    ws == self@.windows,
                    zi == ws[i as int].z,
                    forall|k: int| 0 <= k < order@.len() ==> order@[k] < i,
                    forall|k: int| 0 <= k < p ==> below(ws, #[trigger] order@[k] as int, i as int),
                decreases order@.len() - p,
            {
                p = p + 1;
            }
            let ghost before = order@;
            order.insert(p, i);
            proof {
                assert forall|k1: int, k2: int| 0 <= k1 < k2 < order@.len() implies below(
                    ws,
                    order@[k1] as int,
                    order@[k2] as int,
                ) by {
                    if k2 < p {
                        assert(order@[k1] == before[k1] && order@[k2] == before[k2]);
                    } else if k2 == p {
                        assert(order@[k1] == before[k1]);
                    } else if k1 == p {
                        assert(order@[k2] == before[k2 - 1]);
                        if k2 - 1 > p {
                            assert(below(ws, before[p as int] as int, before[k2 - 1] as int));
                        }
                    } else if k1 < p {
                        assert(order@[k1] == before[k1] && order@[k2] == before[k2 - 1]);
                    } else {
                        assert(order@[k1] == before[k1 - 1] && order@[k2] == before[k2 - 1]);
                    }
                }
            }
            i = i + 1;
        }
        order
    }
    /// Whether [`Desktop::draw_taskbar`] can draw a taskbar at `bar`.
    pub fn can_draw_taskbar(&self, bar: Rect) -> (b: bool)
        ensures
            b == self.taskbar_fits(bar),
    {
        let n = self.windows.len();
        if n == 0 {
            return true;
        }
        let right = bar.right();
        let fit = ((right - bar.x) / 18) as usize;
        let count = if n <= fit {
            n
        } else {
            fit
        };
        let last = if n - 1 <= count {
            n - 1
        } else {
            count
        };
        proof {
            assert(fit <= 65535);
        }
        bar.x as u64 + 18 * last as u64 + 18 <= 65535
    }

    /// Whether [`Desktop::draw_launcher`] can draw the launcher.
    pub fn can_draw_launcher(&self) -> (b: bool)
        requires
            self@.wf(),
        ensures
            b == (self@.screen_fits() && self@.launcher_rect_spec().w >= 2 && self@.launcher_rect_spec().x + 2 <= 65535
                && self@.launcher_rect_spec().y + 1 + self@.items.len() <= 65535),
    {
        let sx = self.screen.x as u32;
        let sy = self.screen.y as u32;
        if !(sx + self.screen.w as u32 / 2 <= 65535 && sy + self.screen.h as u32 / 2 + 2 <= 65535) {
            return false;
        }
        let r = self.launcher_rect();
        r.w >= 2 && r.x as u32 + 2 <= 65535 && r.y as u64 + 1 + self.launcher_items.len() as u64 <= 65535
    }
}

} // verus!
