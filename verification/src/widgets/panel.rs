//! `Panel` — a bordered box with an optional title, drawn immediately into
//! a buffer.
use vstd::prelude::*;
use crate::ansi::str_chars;
use crate::border::{ascii, block, border_of, curve, dashed, dotted, double, round, thick, thin, BorderSet};
use crate::buffer::Buffer;
use crate::canvas::{border_layers, drawn, Canvas};
use crate::color::Color;
use crate::layout::{Align, Rect};
use crate::style::{plain_style, Style};

verus! {

/// What a panel draws.
pub struct PanelLook {
    pub rect: Rect,
    pub border: BorderSet,
    pub style: Style,
    pub title: Option<Seq<char>>,
    pub title_align: Align,
}

impl PanelLook {
    /// `after` is `before` with this panel drawn on it: the border first,
    /// then the title, if any, on the top edge, aligned within the inner width.
    pub open spec fn shows(self, before: Buffer, after: Buffer) -> bool {
        let inner = self.rect.inset_spec(1, 1);
        exists|mid: Buffer|
            #[trigger] drawn(before, mid, before.area, border_layers(self.rect, self.border, self.style))
                && after.wf() && after.area == mid.area && match self.title {
                None => forall|a: int, b: int| #[trigger] after.cell(a, b) == mid.cell(a, b),
                Some(t) => forall|a: int, b: int|
                    #[trigger] after.cell(a, b) == mid.text_cell(
                        (inner.x + self.title_align.h_offset_spec((t.len() % 65536) as int, inner.w as int)) as u16 as int,
                        self.rect.y as int,
                        t,
                        self.style,
                        a,
                        b,
                    ),
            }
    }
}

/// A bordered panel drawn immediately into the buffer.
pub struct Panel<'a> {
    buf: &'a mut Buffer,
    rect: Rect,
    border: BorderSet,
    style: Style,
    title: Option<String>,
    title_align: Align,
}

impl<'a> Panel<'a> {
    /// The buffer drawn into.
    pub closed spec fn target(&self) -> &'a mut Buffer {
        self.buf
    }

    /// What the panel will draw.
    pub closed spec fn look(&self) -> PanelLook {
        PanelLook {
            rect: self.rect,
            border: self.border,
            style: self.style,
            title: match self.title {
                Some(t) => Some(t@),
                None => None,
            },
            title_align: self.title_align,
        }
    }

    /// A panel over `rect` with a rounded border, the plain style and no title.
    pub fn new(buf: &'a mut Buffer, rect: Rect) -> (p: Panel<'a>)
        ensures
            *p.target() == *old(buf),
            *final(p.target()) == *final(buf),
            p.look() == (PanelLook {
                rect,
                border: BorderSet {
                    top_left_curve: '╭',
                    top_right_curve: '╮',
                    ..border_of('┌', '┐', '└', '┘', '─', '│')
                },
                style: plain_style(),
                title: None,
                title_align: Align::Left,
            }),
    {
        Panel { buf, rect, border: round(), style: Style::default(), title: None, title_align: Align::Left }
    }

    pub fn thin(self) -> (p: Panel<'a>)
        ensures
            *p.target() == *self.target(),
            *final(p.target()) == *final(self.target()),
            p.look() == (PanelLook { border: border_of('┌', '┐', '└', '┘', '─', '│'), ..self.look() }),
    {
        Panel { border: thin(), ..self }
    }

    pub fn round(self) -> (p: Panel<'a>)
        ensures
            *p.target() == *self.target(),
            *final(p.target()) == *final(self.target()),
            p.look() == (PanelLook {
                border: BorderSet {
                    top_left_curve: '╭',
                    top_right_curve: '╮',
                    ..border_of('┌', '┐', '└', '┘', '─', '│')
                },
                ..self.look()
            }),
    {
        Panel { border: round(), ..self }
    }

    pub fn double(self) -> (p: Panel<'a>)
        ensures
            *p.target() == *self.target(),
            *final(p.target()) == *final(self.target()),
            p.look() == (PanelLook { border: border_of('╔', '╗', '╚', '╝', '═', '║'), ..self.look() }),
    {
        Panel { border: double(), ..self }
    }

    pub fn thick(self) -> (p: Panel<'a>)
        ensures
            *p.target() == *self.target(),
            *final(p.target()) == *final(self.target()),
            p.look() == (PanelLook { border: border_of('┏', '┓', '┗', '┛', '━', '┃'), ..self.look() }),
    {
        Panel { border: thick(), ..self }
    }

    pub fn ascii(self) -> (p: Panel<'a>)
        ensures
            *p.target() == *self.target(),
            *final(p.target()) == *final(self.target()),
            p.look() == (PanelLook { border: border_of('+', '+', '+', '+', '-', '|'), ..self.look() }),
    {
        Panel { border: ascii(), ..self }
    }

    pub fn curve(self) -> (p: Panel<'a>)
        ensures
            *p.target() == *self.target(),
            *final(p.target()) == *final(self.target()),
            p.look() == (PanelLook { border: border_of('◜', '◝', '◟', '◞', '─', '│'), ..self.look() }),
    {
        Panel { border: curve(), ..self }
    }

    pub fn dotted(self) -> (p: Panel<'a>)
        ensures
            *p.target() == *self.target(),
            *final(p.target()) == *final(self.target()),
            p.look() == (PanelLook { border: border_of('⋅', '⋅', '⋅', '⋅', '⋅', '⋅'), ..self.look() }),
    {
        Panel { border: dotted(), ..self }
    }

    pub fn dashed(self) -> (p: Panel<'a>)
        ensures
            *p.target() == *self.target(),
            *final(p.target()) == *final(self.target()),
            p.look() == (PanelLook { border: border_of('┌', '┐', '└', '┘', '╌', '╎'), ..self.look() }),
    {
        Panel { border: dashed(), ..self }
    }

    pub fn block(self) -> (p: Panel<'a>)
        ensures
            *p.target() == *self.target(),
            *final(p.target()) == *final(self.target()),
            p.look() == (PanelLook { border: border_of('█', '█', '█', '█', '█', '█'), ..self.look() }),
    {
        Panel { border: block(), ..self }
    }

    pub fn border_set(self, b: BorderSet) -> (p: Panel<'a>)
        ensures
            *p.target() == *self.target(),
            *final(p.target()) == *final(self.target()),
            p.look() == (PanelLook { border: b, ..self.look() }),
    {
        Panel { border: b, ..self }
    }

    pub fn fg(self, c: Color) -> (p: Panel<'a>)
        ensures
            *p.target() == *self.target(),
            *final(p.target()) == *final(self.target()),
            p.look() == (PanelLook { style: Style { fg: c, ..self.look().style }, ..self.look() }),
    {
        let style = Style { fg: c, ..self.style };
        Panel { style, ..self }
    }

    pub fn bg(self, c: Color) -> (p: Panel<'a>)
        ensures
            *p.target() == *self.target(),
            *final(p.target()) == *final(self.target()),
            p.look() == (PanelLook { style: Style { bg: c, ..self.look().style }, ..self.look() }),
    {
        let style = Style { bg: c, ..self.style };
        Panel { style, ..self }
    }

    pub fn style(self, s: Style) -> (p: Panel<'a>)
        ensures
            *p.target() == *self.target(),
            *final(p.target()) == *final(self.target()),
            p.look() == (PanelLook { style: s, ..self.look() }),
    {
        Panel { style: s, ..self }
    }

    pub fn title(self, t: &str) -> (p: Panel<'a>)
        ensures
            *p.target() == *self.target(),
            *final(p.target()) == *final(self.target()),
            p.look() == (PanelLook { title: Some(t@), ..self.look() }),
    {
        Panel { title: Some(t.to_string()), ..self }
    }

    pub fn title_align(self, a: Align) -> (p: Panel<'a>)
        ensures
            *p.target() == *self.target(),
            *final(p.target()) == *final(self.target()),
            p.look() == (PanelLook { title_align: a, ..self.look() }),
    {
        Panel { title_align: a, ..self }
    }

    /// Draw the panel (and title) into the buffer.
    pub fn draw(self)
        requires
            self.target().wf(),
        ensures
            self.look().shows(*self.target(), *final(self.target())),
    {
        let ghost look = self.look();
        let ghost b0 = *self.buf;
        let ghost fin = *final(self.buf);
        let rect = self.rect;
        let st = self.style;
        let mut c = Canvas::new(self.buf);
        c.border(rect, self.border, st);
        let ghost mid = *c.target();
        assert(drawn(b0, mid, b0.area, border_layers(look.rect, look.border, look.style)));
        match &self.title {
            Some(t) => {
                let inner = rect.inner();
                let n = str_chars(t.as_str()).len();
                let len = n as u16;
                assert(len == n % 65536) by (bit_vector)
                    requires len == n as u16;
                let off = self.title_align.h_offset(len, inner.w);
                let x = inner.x as i32 + off as i32;
                c.text(x, rect.y as i32, t.as_str(), Align::Left, 0, st);
                assert(*c.target() == fin);
            },
            None => {
                assert(*c.target() == fin);
            },
        }
    }
}

} // verus!
