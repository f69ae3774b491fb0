//! `Btn` — a clickable button that keeps its own state across frames.
//! [`Btn::clicked`] is true on the frame the button was activated.
use vstd::prelude::*;
use crate::ansi::str_chars;
use crate::border::{ascii, border_of, round, thick, thin, BorderSet};
use crate::buffer::Buffer;
use crate::canvas::{border_layers, drawn};
use crate::color::Color;
use crate::event::{Event, KeyCode, MouseButton, MouseKind};
use crate::frame::Frame;
use crate::layout::{Align, Rect};
use crate::style::{plain_style, Style};

verus! {

/// A clickable button.
pub struct Btn {
    rect: Rect,
    label: String,
    style: Style,
    focus_style: Style,
    border: BorderSet,
    id: usize,
    focused: bool,
    clicked_flag: bool,
}

/// Whether `ev` activates a button at `rect` that is (or is not) focused.
pub open spec fn btn_activated(rect: Rect, focused: bool, ev: Event) -> bool {
    match ev {
        Event::Key(k) => focused && (k.code == KeyCode::Enter || k.code == KeyCode::Char(' ')),
        Event::Mouse(m) => m.kind == MouseKind::Press && m.button == MouseButton::Left
            && rect.contains_spec(m.x as int, m.y as int),
        _ => false,
    }
}

/// Whether `ev` is a left click on `rect`.
pub open spec fn btn_clicked_on(rect: Rect, ev: Event) -> bool {
    ev matches Event::Mouse(m) && m.kind == MouseKind::Press && m.button == MouseButton::Left
        && rect.contains_spec(m.x as int, m.y as int)
}

impl Btn {
    pub closed spec fn rect_spec(&self) -> Rect {
        self.rect
    }

    pub closed spec fn label_spec(&self) -> Seq<char> {
        self.label@
    }

    pub closed spec fn style_spec(&self) -> Style {
        self.style
    }

    pub closed spec fn focus_style_spec(&self) -> Style {
        self.focus_style
    }

    pub closed spec fn border_spec(&self) -> BorderSet {
        self.border
    }

    pub closed spec fn id_spec(&self) -> usize {
        self.id
    }

    pub closed spec fn focused_spec(&self) -> bool {
        self.focused
    }

    pub closed spec fn clicked_spec(&self) -> bool {
        self.clicked_flag
    }

    /// Everything but the focus and click state is the same.
    pub open spec fn same_look(&self, o: &Btn) -> bool {
        &&& self.rect_spec() == o.rect_spec()
        &&& self.label_spec() == o.label_spec()
        &&& self.style_spec() == o.style_spec()
        &&& self.focus_style_spec() == o.focus_style_spec()
        &&& self.border_spec() == o.border_spec()
    }

    pub fn new(rect: Rect) -> (b: Btn)
        ensures
            b.rect_spec() == rect,
            b.label_spec() == Seq::<char>::empty(),
            b.style_spec() == (Style { fg: Color::White, ..plain_style() }),
            b.focus_style_spec() == (Style { reverse: true, fg: Color::White, ..plain_style() }),
            b.border_spec() == (crate::border::BorderSet {
                top_left_curve: '╭',
                top_right_curve: '╮',
                ..border_of('┌', '┐', '└', '┘', '─', '│')
            }),
            b.id_spec() == usize::MAX,
            !b.focused_spec(),
            !b.clicked_spec(),
    {
        Btn {
            rect,
            label: String::new(),
            style: Style::default().fg(Color::White),
            focus_style: Style::default().reverse(true).fg(Color::White),
            border: round(),
            id: usize::MAX,
            focused: false,
            clicked_flag: false,
        }
    }

    pub fn label(self, s: &str) -> (b: Btn)
        ensures
            b.label_spec() == s@,
            b.rect_spec() == self.rect_spec(),
            b.style_spec() == self.style_spec(),
            b.focus_style_spec() == self.focus_style_spec(),
            b.border_spec() == self.border_spec(),
            b.id_spec() == self.id_spec(),
            b.focused_spec() == self.focused_spec(),
            b.clicked_spec() == self.clicked_spec(),
    {
        Btn { label: s.to_owned(), ..self }
    }

    pub fn round(self) -> (b: Btn)
        ensures
            b.border_spec() == (crate::border::BorderSet {
                top_left_curve: '╭',
                top_right_curve: '╮',
                ..border_of('┌', '┐', '└', '┘', '─', '│')
            }),
            b.rect_spec() == self.rect_spec(),
            b.label_spec() == self.label_spec(),
            b.style_spec() == self.style_spec(),
            b.focus_style_spec() == self.focus_style_spec(),
            b.id_spec() == self.id_spec(),
            b.focused_spec() == self.focused_spec(),
            b.clicked_spec() == self.clicked_spec(),
    {
        Btn { border: round(), ..self }
    }

    pub fn thin(self) -> (b: Btn)
        ensures
            b.border_spec() == border_of('┌', '┐', '└', '┘', '─', '│'),
            b.rect_spec() == self.rect_spec(),
            b.label_spec() == self.label_spec(),
            b.style_spec() == self.style_spec(),
            b.focus_style_spec() == self.focus_style_spec(),
            b.id_spec() == self.id_spec(),
            b.focused_spec() == self.focused_spec(),
            b.clicked_spec() == self.clicked_spec(),
    {
        Btn { border: thin(), ..self }
    }

    pub fn thick(self) -> (b: Btn)
        ensures
            b.border_spec() == border_of('┏', '┓', '┗', '┛', '━', '┃'),
            b.rect_spec() == self.rect_spec(),
            b.label_spec() == self.label_spec(),
            b.style_spec() == self.style_spec(),
            b.focus_style_spec() == self.focus_style_spec(),
            b.id_spec() == self.id_spec(),
            b.focused_spec() == self.focused_spec(),
            b.clicked_spec() == self.clicked_spec(),
    {
        Btn { border: thick(), ..self }
    }

    pub fn ascii(self) -> (b: Btn)
        ensures
            b.border_spec() == border_of('+', '+', '+', '+', '-', '|'),
            b.rect_spec() == self.rect_spec(),
            b.label_spec() == self.label_spec(),
            b.style_spec() == self.style_spec(),
            b.focus_style_spec() == self.focus_style_spec(),
            b.id_spec() == self.id_spec(),
            b.focused_spec() == self.focused_spec(),
            b.clicked_spec() == self.clicked_spec(),
    {
        Btn { border: ascii(), ..self }
    }

    pub fn fg(self, c: Color) -> (b: Btn)
        ensures
            b.style_spec() == (Style { fg: c, ..self.style_spec() }),
            b.rect_spec() == self.rect_spec(),
            b.label_spec() == self.label_spec(),
            b.focus_style_spec() == self.focus_style_spec(),
            b.border_spec() == self.border_spec(),
            b.id_spec() == self.id_spec(),
            b.focused_spec() == self.focused_spec(),
            b.clicked_spec() == self.clicked_spec(),
    {
        let style = Style { fg: c, ..self.style };
        Btn { style, ..self }
    }

    pub fn bg(self, c: Color) -> (b: Btn)
        ensures
            b.style_spec() == (Style { bg: c, ..self.style_spec() }),
            b.rect_spec() == self.rect_spec(),
            b.label_spec() == self.label_spec(),
            b.focus_style_spec() == self.focus_style_spec(),
            b.border_spec() == self.border_spec(),
            b.id_spec() == self.id_spec(),
            b.focused_spec() == self.focused_spec(),
            b.clicked_spec() == self.clicked_spec(),
    {
        let style = Style { bg: c, ..self.style };
        Btn { style, ..self }
    }

    pub fn style(self, s: Style) -> (b: Btn)
        ensures
            b.style_spec() == s,
            b.rect_spec() == self.rect_spec(),
            b.label_spec() == self.label_spec(),
            b.focus_style_spec() == self.focus_style_spec(),
            b.border_spec() == self.border_spec(),
            b.id_spec() == self.id_spec(),
            b.focused_spec() == self.focused_spec(),
            b.clicked_spec() == self.clicked_spec(),
    {
        Btn { style: s, ..self }
    }

    pub fn focus_style(self, s: Style) -> (b: Btn)
        ensures
            b.focus_style_spec() == s,
            b.rect_spec() == self.rect_spec(),
            b.label_spec() == self.label_spec(),
            b.style_spec() == self.style_spec(),
            b.border_spec() == self.border_spec(),
            b.id_spec() == self.id_spec(),
            b.focused_spec() == self.focused_spec(),
            b.clicked_spec() == self.clicked_spec(),
    {
        Btn { focus_style: s, ..self }
    }

    pub fn is_focused(&self) -> (b: bool)
        ensures
            b == self.focused_spec(),
    {
        self.focused
    }

    /// Reposition the button (e.g. after a resize).
    pub fn set_rect(&mut self, r: Rect)
        ensures
            final(self).rect_spec() == r,
            final(self).label_spec() == old(self).label_spec(),
            final(self).style_spec() == old(self).style_spec(),
            final(self).focus_style_spec() == old(self).focus_style_spec(),
            final(self).border_spec() == old(self).border_spec(),
            final(self).id_spec() == old(self).id_spec(),
            final(self).focused_spec() == old(self).focused_spec(),
            final(self).clicked_spec() == old(self).clicked_spec(),
    {
        self.rect = r;
    }

    /// True on the frame the button was activated.
    pub fn clicked(&self) -> (b: bool)
        ensures
            b == self.clicked_spec(),
    {
        self.clicked_flag
    }

    /// Handle an event. Call before [`Btn::draw`]. A left click on the
    /// button focuses it and asks the frame for focus; Enter or Space on the
    /// focused button, or the click, activates it.
    pub fn handle(&mut self, ev: &Event, frame: &mut Frame)
        ensures
            final(self).clicked_spec() == btn_activated(
                old(self).rect_spec(),
                old(self).focused_spec(),
                *ev,
            ),
            final(self).focused_spec() == (old(self).focused_spec() || btn_clicked_on(
                old(self).rect_spec(),
                *ev,
            )),
            final(self).same_look(old(self)),
            final(self).id_spec() == old(self).id_spec(),
            *final(frame).target() == *old(frame).target(),
            *final(final(frame).target()) == *final(old(frame).target()),
            final(frame).area_spec() == old(frame).area_spec(),
            final(frame).level_spec() == old(frame).level_spec(),
            final(frame).focus_spec() == old(frame).focus_spec(),
            final(frame).count_spec() == old(frame).count_spec(),
            final(frame).requested_spec() == if btn_clicked_on(old(self).rect_spec(), *ev) {
                Some(old(self).id_spec())
            } else {
                old(frame).requested_spec()
            },
    {
        self.clicked_flag = false;
        match ev {
            Event::Key(k) => {
                if self.focused && (k.is_enter() || k.is_char(' ')) {
                    self.clicked_flag = true;
                }
            },
            Event::Mouse(m) => {
                if m.kind == MouseKind::Press && m.button == MouseButton::Left && self.rect.contains(
                    m.x,
                    m.y,
                ) {
                    self.focused = true;
                    frame.request_focus(self.id);
                    self.clicked_flag = true;
                }
            },
            _ => {},
        }
    }

    /// The row the label is written on.
    pub open spec fn label_row(&self) -> int {
        self.rect_spec().y + self.rect_spec().h / 2
    }

    /// `after` is `before` with the button drawn on it in style `st`: its
    /// border first, then the label centered on the middle row.
    pub open spec fn shows(&self, before: Buffer, after: Buffer, st: Style) -> bool {
        let inner = self.rect_spec().inset_spec(1, 1);
        let off = Align::Center.h_offset_spec(
            (self.label_spec().len() % 65536) as int,
            inner.w as int,
        );
        exists|mid: Buffer|
            #[trigger] drawn(
                before,
                mid,
                before.area,
                border_layers(self.rect_spec(), self.border_spec(), st),
            ) && after.wf() && after.area == mid.area && forall|a: int, b: int|
                #[trigger] after.cell(a, b) == mid.text_cell(
                    (inner.x + off) as u16 as int,
                    self.label_row() as u16 as int,
                    self.label_spec(),
                    st,
                    a,
                    b,
                )
    }

    /// Draw the button: its border, and the label centered on the middle row.
    pub fn draw(&mut self, frame: &mut Frame)
        requires
            old(frame).count_spec() < usize::MAX,
            old(frame).target().wf(),
            old(self).label_row() <= u16::MAX,
        ensures
            ({
                let focused = old(frame).focus_spec() == old(frame).count_spec() || old(
                    frame,
                ).requested_spec() == Some(old(frame).count_spec());
                &&& final(self).focused_spec() == focused
                &&& final(self).id_spec() == old(frame).count_spec()
                &&& old(self).shows(
                    *old(frame).target(),
                    *final(frame).target(),
                    if focused {
                        old(self).focus_style_spec()
                    } else {
                        old(self).style_spec()
                    },
                )
            }),
            final(self).same_look(old(self)),
            final(self).clicked_spec() == old(self).clicked_spec(),
            final(frame).count_spec() == old(frame).count_spec() + 1,
            final(frame).area_spec() == old(frame).area_spec(),
            final(frame).level_spec() == old(frame).level_spec(),
            final(frame).focus_spec() == old(frame).focus_spec(),
            final(frame).requested_spec() == old(frame).requested_spec(),
            *final(final(frame).target()) == *final(old(frame).target()),
    {
        let is_focused = frame.register_focus();
        self.id = frame.focus_count() - 1;
        self.focused = is_focused;
        let st = if is_focused {
            self.focus_style
        } else {
            self.style
        };
        let mut c = frame.canvas();
        let ghost cfin = *final(c.target());
        c.border(self.rect, self.border, st);
        let ghost mid = *c.target();
        let inner = self.rect.inner();
        let n = str_chars(self.label.as_str()).len();
        let len = n as u16;
        assert(len == n % 65536) by (bit_vector)
            requires len == n as u16;
        let off = Align::Center.h_offset(len, inner.w);
        let row = self.rect.y + self.rect.h / 2;
        c.text(inner.x as i32 + off as i32, row as i32, self.label.as_str(), Align::Left, 0, st);
        assert(*frame.target() == cfin);
        assert(drawn(*old(frame).target(), mid, (*old(frame).target()).area, border_layers(self.rect_spec(), self.border_spec(), st)));
        assert(old(self).rect_spec() == self.rect_spec() && old(self).border_spec() == self.border_spec()
            && old(self).label_spec() == self.label_spec());
    }
}

} // verus!
