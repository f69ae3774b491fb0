//! A settings panel that shows the detected terminal capabilities.
use vstd::prelude::*;
use crate::buffer::Cell;
use crate::canvas::rect_shape;
use crate::color::{Color, ColorLevel};
use crate::frame::Frame;
use crate::layout::{Align, Rect};
use crate::paint::{fg_style, fill_clipped, layer_ops, lemma_paints_compose, lemma_rows_paint, paints, rows_ops, Op};
use crate::style::{plain_style, Style};
use crate::widgets::text::{rows_at, rows_shown, text_rows, Text};

verus! {

/// How a color level is described to the user.
pub open spec fn level_name_spec(l: ColorLevel) -> Seq<char> {
    match l {
        ColorLevel::Rgb => "truecolor (24-bit)"@,
        ColorLevel::Ansi256 => "256-color"@,
        ColorLevel::Basic => "16-color"@,
        ColorLevel::NoColor => "no-color"@,
    }
}

/// The capability report for color level `l`, one fact per line.
pub open spec fn report_spec(l: ColorLevel) -> Seq<char> {
    "color level : "@ + level_name_spec(l)
        + "\nstd only    : yes (no external crates)\nmode        : realtime + static\nauto-size   : responsive Layout engine\ntransparency : alpha on supported terminals"@
}

/// The style of the translucent demo bar: black on magenta at half opacity.
pub open spec fn bar_style() -> Style {
    Style { fg: Color::Black, bg: Color::Magenta, alpha: Some(128), ..plain_style() }
}

/// What the settings panel shows in a window body `area` on a `level`
/// terminal: the report, a translucent bar, and its caption.
pub open spec fn settings_ops(buf_area: Rect, area: Rect, level: ColorLevel) -> Seq<Op> {
    let r1 = Rect { x: (area.x + 1) as u16, y: (area.y + 1) as u16, w: (area.w - 2) as u16, h: 6 };
    let rows1 = text_rows(report_spec(level), false, r1.w as int);
    let bar = Rect { x: (area.x + 1) as u16, y: (area.y + 9) as u16, w: (area.w - 2) as u16, h: 2 };
    let r3 = Rect { h: 1, ..bar };
    let rows3 = text_rows("   translucent panel (alpha 0.5)"@, false, r3.w as int);
    rows_ops(rows1, rows_at(r1, Align::Left, rows1), fg_style(Color::White), rows_shown(r1, rows1)) + layer_ops(
        seq![(rect_shape(bar), Cell { ch: ' ', style: bar_style() })],
        buf_area.intersect_spec(bar),
    ) + rows_ops(rows3, rows_at(r3, Align::Left, rows3), fg_style(Color::White), rows_shown(r3, rows3))
}

/// The settings program of the desktop.
pub struct SettingsApp;

impl SettingsApp {
    /// The window title.
    pub fn title(&self) -> (t: String)
        ensures
            t@ == "Settings"@,
    {
        "Settings".to_string()
    }

    /// The smallest window the panel fits in.
    pub fn min_size(&self) -> (r: (u16, u16))
        ensures
            r == (40u16, 16u16),
    {
        (40, 16)
    }

    /// How color level `l` is described.
    pub fn level_name(l: ColorLevel) -> (s: &'static str)
        ensures
            s@ == level_name_spec(l),
    {
        match l {
            ColorLevel::Rgb => "truecolor (24-bit)",
            ColorLevel::Ansi256 => "256-color",
            ColorLevel::Basic => "16-color",
            ColorLevel::NoColor => "no-color",
        }
    }

    /// The capability report for color level `l`, one fact per line.
    pub fn report(l: ColorLevel) -> (s: String)
        ensures
            s@ == report_spec(l),
    {
        let mut s = String::new();
        s.append("color level : ");
        s.append(SettingsApp::level_name(l));
        s.append("\nstd only    : yes (no external crates)\nmode        : realtime + static\nauto-size   : responsive Layout engine\ntransparency : alpha on supported terminals");
        s
    }
    /// Draw the panel into the window body `area`.
    pub fn draw(&self, frame: &mut Frame, area: Rect)
        requires
            old(frame).target().wf(),
            area.w >= 2,
            area.x + 1 <= 65535,
            area.y + 9 <= 65535,
        ensures
            paints(
                *old(frame).target(),
                *final(frame).target(),
                settings_ops(old(frame).target().area, area, old(frame).level_spec()),
            ),
            *final(final(frame).target()) == *final(old(frame).target()),
            final(frame).same_state(old(frame)),
    {
        let ghost b0 = *frame.target();
        let lines = SettingsApp::report(frame.level());
        let r1 = Rect::new(area.x + 1, area.y + 1, area.w - 2, 6);
        {
            let buf = frame.buffer();
            Text::new(buf, r1).fg(Color::White).draw(lines.as_str());
        }
        let ghost b1 = *frame.target();
        let ghost rows1 = text_rows(lines@, false, r1.w as int);
        let ghost o1 = rows_ops(rows1, rows_at(r1, Align::Left, rows1), fg_style(Color::White), rows_shown(r1, rows1));
        proof {
            lemma_rows_paint(b0, b1, rows1, rows_at(r1, Align::Left, rows1), fg_style(Color::White), rows_shown(r1, rows1));
        }
        let bar = Rect::new(area.x + 1, area.y + 9, area.w - 2, 2);
        fill_clipped(frame, bar, bar, ' ', Style::new().fg(Color::Black).bg(Color::Magenta).alpha(128));
        let ghost b2 = *frame.target();
        let ghost o2 = layer_ops(seq![(rect_shape(bar), Cell { ch: ' ', style: bar_style() })], b0.area.intersect_spec(bar));
        let r3 = Rect::new(area.x + 1, area.y + 9, area.w - 2, 1);
        {
            let buf = frame.buffer();
            Text::new(buf, r3).fg(Color::White).draw("   translucent panel (alpha 0.5)");
        }
        proof {
            let rows3 = text_rows("   translucent panel (alpha 0.5)"@, false, r3.w as int);
            let o3 = rows_ops(rows3, rows_at(r3, Align::Left, rows3), fg_style(Color::White), rows_shown(r3, rows3));
            lemma_rows_paint(b2, *frame.target(), rows3, rows_at(r3, Align::Left, rows3), fg_style(Color::White), rows_shown(r3, rows3));
            lemma_paints_compose(b0, b1, b2, o1, o2);
            lemma_paints_compose(b0, b2, *frame.target(), o1 + o2, o3);
        }
    }
}

} // verus!
