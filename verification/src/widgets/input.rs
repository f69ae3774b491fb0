//! `Input` — a single-line text field with cursor, hint, masking and a
//! length limit. It keeps its own state across frames; after each call of
//! [`Input::handle`], [`Input::submitted`] and [`Input::changed`] tell
//! whether Enter was pressed or the text was edited.
use vstd::prelude::*;
use crate::ansi::{push_char, str_chars};
use crate::border::{border_of, thin};
use crate::buffer::Cell;
use crate::canvas::{border_layers, drawn, lemma_drawn_compose, point_shape, Shape};
use crate::color::Color;
use crate::event::{plain_key, Event, Key, KeyCode, MouseKind};
use crate::frame::Frame;
use crate::layout::Rect;
use crate::style::{plain_style, Style};

verus! {

/// The part of an input field's state that events change.
pub struct InputModel {
    pub value: Seq<char>,
    pub cursor: int,
    pub focused: bool,
    pub submitted: bool,
    pub changed: bool,
}

/// A single-line text input field with cursor, hint and masking.
pub struct Input {
    rect: Rect,
    value: Vec<char>,
    cursor: usize,
    hint: Vec<char>,
    mask: Option<char>,
    style: Style,
    focus_style: Style,
    max: Option<usize>,
    id: usize,
    focused: bool,
    submitted_flag: bool,
    changed_flag: bool,
}

/// What `ev` does to a field in state `m` placed at `rect`, with length limit `max`.
pub open spec fn input_step(m: InputModel, rect: Rect, max: Option<usize>, ev: Event) -> InputModel {
    let m = InputModel { submitted: false, changed: false, ..m };
    match ev {
        Event::Mouse(mo) => if mo.kind == MouseKind::Press {
            if rect.contains_spec(mo.x as int, mo.y as int) {
                let c = mo.x - (rect.x + 1);
                let c = if c < 0 {
                    0
                } else {
                    c
                };
                InputModel {
                    focused: true,
                    cursor: if c <= m.value.len() {
                        c
                    } else {
                        m.value.len() as int
                    },
                    ..m
                }
            } else {
                InputModel { focused: false, ..m }
            }
        } else {
            m
        },
        Event::Key(k) => if !m.focused {
            m
        } else {
            match k.code {
                KeyCode::Enter => InputModel { submitted: true, ..m },
                KeyCode::Esc => InputModel { focused: false, ..m },
                KeyCode::Backspace => if m.cursor > 0 {
                    InputModel {
                        value: m.value.remove(m.cursor - 1),
                        cursor: m.cursor - 1,
                        changed: true,
                        ..m
                    }
                } else {
                    m
                },
                KeyCode::Delete => if m.cursor < m.value.len() {
                    InputModel { value: m.value.remove(m.cursor), changed: true, ..m }
                } else {
                    m
                },
                KeyCode::Left => InputModel {
                    cursor: if m.cursor > 0 {
                        m.cursor - 1
                    } else {
                        0
                    },
                    ..m
                },
                KeyCode::Right => InputModel {
                    cursor: if m.cursor + 1 <= m.value.len() {
                        m.cursor + 1
                    } else {
                        m.value.len() as int
                    },
                    ..m
                },
                KeyCode::Home => InputModel { cursor: 0, ..m },
                KeyCode::End => InputModel { cursor: m.value.len() as int, ..m },
                KeyCode::Char(c) => if k.ctrl {
                    m
                } else if max matches Some(mx) && m.value.len() >= mx {
                    m
                } else {
                    InputModel {
                        value: m.value.insert(m.cursor, c),
                        cursor: m.cursor + 1,
                        changed: true,
                        ..m
                    }
                },
                _ => m,
            }
        },
        _ => m,
    }
}

/// A mouse press inside `rect` asks for focus.
pub open spec fn input_claims_focus(rect: Rect, ev: Event) -> bool {
    ev matches Event::Mouse(mo) && mo.kind == MouseKind::Press && rect.contains_spec(
        mo.x as int,
        mo.y as int,
    )
}

impl Input {
    pub closed spec fn model(&self) -> InputModel {
        InputModel {
            value: self.value@,
            cursor: self.cursor as int,
            focused: self.focused,
            submitted: self.submitted_flag,
            changed: self.changed_flag,
        }
    }

    pub closed spec fn rect_spec(&self) -> Rect {
        self.rect
    }

    pub closed spec fn hint_spec(&self) -> Seq<char> {
        self.hint@
    }

    pub closed spec fn mask_spec(&self) -> Option<char> {
        self.mask
    }

    pub closed spec fn style_spec(&self) -> Style {
        self.style
    }

    pub closed spec fn focus_style_spec(&self) -> Style {
        self.focus_style
    }

    pub closed spec fn max_spec(&self) -> Option<usize> {
        self.max
    }

    /// The id this field got when it was last drawn.
    pub closed spec fn id_spec(&self) -> usize {
        self.id
    }

    /// The cursor stays within the text.
    pub open spec fn wf(&self) -> bool {
        0 <= self.model().cursor <= self.model().value.len()
    }

    /// `self` and `o` differ at most in the text, cursor, focus and flags.
    pub open spec fn same_setup(&self, o: &Input) -> bool {
        &&& self.rect_spec() == o.rect_spec()
        &&& self.hint_spec() == o.hint_spec()
        &&& self.mask_spec() == o.mask_spec()
        &&& self.style_spec() == o.style_spec()
        &&& self.focus_style_spec() == o.focus_style_spec()
        &&& self.max_spec() == o.max_spec()
        &&& self.id_spec() == o.id_spec()
    }

    pub fn new(rect: Rect) -> (i: Input)
        ensures
            i.wf(),
            i.model() == (InputModel {
                value: seq![],
                cursor: 0,
                focused: false,
                submitted: false,
                changed: false,
            }),
            i.rect_spec() == rect,
            i.hint_spec() == Seq::<char>::empty(),
            i.mask_spec() is None,
            i.style_spec() == plain_style(),
            i.focus_style_spec() == (Style { reverse: true, ..plain_style() }),
            i.max_spec() is None,
            i.id_spec() == usize::MAX,
    {
        Input {
            rect,
            value: Vec::new(),
            cursor: 0,
            hint: Vec::new(),
            mask: None,
            style: Style::default(),
            focus_style: Style::default().reverse(true),
            max: None,
            id: usize::MAX,
            focused: false,
            submitted_flag: false,
            changed_flag: false,
        }
    }

    pub fn hint(self, s: &str) -> (i: Input)
        ensures
            i.model() == self.model(),
            i.hint_spec() == s@,
            i.rect_spec() == self.rect_spec(),
            i.mask_spec() == self.mask_spec(),
            i.style_spec() == self.style_spec(),
            i.focus_style_spec() == self.focus_style_spec(),
            i.max_spec() == self.max_spec(),
            i.id_spec() == self.id_spec(),
    {
        Input { hint: str_chars(s), ..self }
    }

    pub fn mask(self, c: char) -> (i: Input)
        ensures
            i.model() == self.model(),
            i.mask_spec() == Some(c),
            i.rect_spec() == self.rect_spec(),
            i.hint_spec() == self.hint_spec(),
            i.style_spec() == self.style_spec(),
            i.focus_style_spec() == self.focus_style_spec(),
            i.max_spec() == self.max_spec(),
            i.id_spec() == self.id_spec(),
    {
        Input { mask: Some(c), ..self }
    }

    pub fn fg(self, c: Color) -> (i: Input)
        ensures
            i.model() == self.model(),
            i.style_spec() == (Style { fg: c, ..self.style_spec() }),
            i.rect_spec() == self.rect_spec(),
            i.hint_spec() == self.hint_spec(),
            i.mask_spec() == self.mask_spec(),
            i.focus_style_spec() == self.focus_style_spec(),
            i.max_spec() == self.max_spec(),
            i.id_spec() == self.id_spec(),
    {
        let style = Style { fg: c, ..self.style };
        Input { style, ..self }
    }

    pub fn bg(self, c: Color) -> (i: Input)
        ensures
            i.model() == self.model(),
            i.style_spec() == (Style { bg: c, ..self.style_spec() }),
            i.rect_spec() == self.rect_spec(),
            i.hint_spec() == self.hint_spec(),
            i.mask_spec() == self.mask_spec(),
            i.focus_style_spec() == self.focus_style_spec(),
            i.max_spec() == self.max_spec(),
            i.id_spec() == self.id_spec(),
    {
        let style = Style { bg: c, ..self.style };
        Input { style, ..self }
    }

    pub fn style(self, s: Style) -> (i: Input)
        ensures
            i.model() == self.model(),
            i.style_spec() == s,
            i.rect_spec() == self.rect_spec(),
            i.hint_spec() == self.hint_spec(),
            i.mask_spec() == self.mask_spec(),
            i.focus_style_spec() == self.focus_style_spec(),
            i.max_spec() == self.max_spec(),
            i.id_spec() == self.id_spec(),
    {
        Input { style: s, ..self }
    }

    pub fn focus_style(self, s: Style) -> (i: Input)
        ensures
            i.model() == self.model(),
            i.focus_style_spec() == s,
            i.rect_spec() == self.rect_spec(),
            i.hint_spec() == self.hint_spec(),
            i.mask_spec() == self.mask_spec(),
            i.style_spec() == self.style_spec(),
            i.max_spec() == self.max_spec(),
            i.id_spec() == self.id_spec(),
    {
        Input { focus_style: s, ..self }
    }

    pub fn max(self, n: usize) -> (i: Input)
        ensures
            i.model() == self.model(),
            i.max_spec() == Some(n),
            i.rect_spec() == self.rect_spec(),
            i.hint_spec() == self.hint_spec(),
            i.mask_spec() == self.mask_spec(),
            i.style_spec() == self.style_spec(),
            i.focus_style_spec() == self.focus_style_spec(),
            i.id_spec() == self.id_spec(),
    {
        Input { max: Some(n), ..self }
    }

    /// The current text.
    pub fn value(&self) -> (s: String)
        ensures
            s@ == self.model().value,
    {
        let mut s = String::new();
        let mut i: usize = 0;
        while i < self.value.len()
            invariant
                i <= self.value.len(),
                s@ == self.value@.subrange(0, i as int),
            decreases self.value.len() - i,
        {
            push_char(&mut s, self.value[i]);
            assert(self.value@.subrange(0, i + 1) == self.value@.subrange(0, i as int).push(
                self.value@[i as int],
            ));
            i = i + 1;
        }
        assert(self.value@.subrange(0, self.value@.len() as int) == self.value@);
        s
    }

    /// Replace the text; the cursor moves to its end.
    pub fn set_value(&mut self, s: &str)
        ensures
            final(self).wf(),
            final(self).model() == (InputModel {
                value: s@,
                cursor: s@.len() as int,
                ..old(self).model()
            }),
            final(self).same_setup(old(self)),
    {
        self.value = str_chars(s);
        self.cursor = self.value.len();
    }

    /// Empty the text.
    pub fn clear(&mut self)
        ensures
            final(self).wf(),
            final(self).model() == (InputModel { value: seq![], cursor: 0, ..old(self).model() }),
            final(self).same_setup(old(self)),
    {
        self.value = Vec::new();
        self.cursor = 0;
    }

    pub fn is_focused(&self) -> (b: bool)
        ensures
            b == self.model().focused,
    {
        self.focused
    }

    /// Reposition the field (e.g. after a resize).
    pub fn set_rect(&mut self, r: Rect)
        ensures
            final(self).model() == old(self).model(),
            final(self).rect_spec() == r,
            final(self).hint_spec() == old(self).hint_spec(),
            final(self).mask_spec() == old(self).mask_spec(),
            final(self).style_spec() == old(self).style_spec(),
            final(self).focus_style_spec() == old(self).focus_style_spec(),
            final(self).max_spec() == old(self).max_spec(),
            final(self).id_spec() == old(self).id_spec(),
    {
        self.rect = r;
    }

    /// True on the frame Enter was pressed.
    pub fn submitted(&self) -> (b: bool)
        ensures
            b == self.model().submitted,
    {
        self.submitted_flag
    }

    /// True on the frame the text was edited.
    pub fn changed(&self) -> (b: bool)
        ensures
            b == self.model().changed,
    {
        self.changed_flag
    }

    pub fn focus(&mut self)
        ensures
            final(self).model() == (InputModel { focused: true, ..old(self).model() }),
            final(self).same_setup(old(self)),
    {
        self.focused = true;
    }

    /// Handle an event. Call before [`Input::draw`].
    pub fn handle(&mut self, ev: &Event, frame: &mut Frame)
        requires
            old(self).wf(),
        ensures
            final(self).wf(),
            final(self).model() == input_step(
                old(self).model(),
                old(self).rect_spec(),
                old(self).max_spec(),
                *ev,
            ),
            final(self).same_setup(old(self)),
            *final(frame).target() == *old(frame).target(),
            *final(final(frame).target()) == *final(old(frame).target()),
            final(frame).area_spec() == old(frame).area_spec(),
            final(frame).level_spec() == old(frame).level_spec(),
            final(frame).focus_spec() == old(frame).focus_spec(),
            final(frame).count_spec() == old(frame).count_spec(),
            final(frame).requested_spec() == if input_claims_focus(old(self).rect_spec(), *ev) {
                Some(old(self).id_spec())
            } else {
                old(frame).requested_spec()
            },
    {
        self.submitted_flag = false;
        self.changed_flag = false;
        match ev {
            Event::Mouse(m) => {
                if m.kind == MouseKind::Press {
                    if self.rect.contains(m.x, m.y) {
                        self.focused = true;
                        frame.request_focus(self.id);
                        let c = m.x.saturating_sub(self.rect.x + 1) as usize;
                        self.cursor = if c <= self.value.len() {
                            c
                        } else {
                            self.value.len()
                        };
                    } else if self.focused {
                        self.focused = false;
                    }
                }
            },
            Event::Key(k) => {
                if !self.focused {
                    return ;
                }
                match k.code {
                    KeyCode::Enter => {
                        self.submitted_flag = true;
                    },
                    KeyCode::Esc => self.focused = false,
                    KeyCode::Backspace => {
                        if self.cursor > 0 {
                            self.value.remove(self.cursor - 1);
                            self.cursor = self.cursor - 1;
                            self.changed_flag = true;
                        }
                    },
                    KeyCode::Delete => {
                        if self.cursor < self.value.len() {
                            self.value.remove(self.cursor);
                            self.changed_flag = true;
                        }
                    },
                    KeyCode::Left => self.cursor = self.cursor.saturating_sub(1),
                    KeyCode::Right => {
                        self.cursor = if self.cursor < self.value.len() {
                            self.cursor + 1
                        } else {
                            self.value.len()
                        };
                    },
                    KeyCode::Home => self.cursor = 0,
                    KeyCode::End => self.cursor = self.value.len(),
                    KeyCode::Char(c) => {
                        if !k.ctrl {
                            if let Some(max) = self.max {
                                if self.value.len() >= max {
                                    return ;
                                }
                            }
                            self.value.insert(self.cursor, c);
                            let n = self.value.len();
                            assert(self.cursor < n);
                            self.cursor = self.cursor + 1;
                            self.changed_flag = true;
                        }
                    },
                    _ => {},
                }
            },
            _ => {},
        }
    }
}


/// The text a field shows: the value, or as many mask characters.
pub open spec fn shown_text(value: Seq<char>, mask: Option<char>) -> Seq<char> {
    match mask {
        Some(c) => Seq::new(value.len(), |i: int| c),
        None => value,
    }
}

/// What the field looks like: the inner area, the characters shown and
/// their styles, where the view starts and where the cursor is.
pub struct InputView {
    pub inner: Rect,
    pub chars: Seq<char>,
    pub st: Style,
    pub text_style: Style,
    pub cursor_style: Style,
    pub start: int,
    pub cur: int,
    pub count: int,
    pub trailing_cursor: bool,
}

/// The reverse-video overlay marking the cursor.
pub open spec fn reversed() -> Style {
    Style { reverse: true, ..plain_style() }
}

/// The dim gray overlay for the hint.
pub open spec fn hint_overlay() -> Style {
    Style { dim: true, fg: Color::BrightBlack, ..plain_style() }
}

/// The layer for the `j`-th visible character of view `v`.
pub open spec fn char_layer(v: InputView, focused: bool) -> spec_fn(int) -> (Shape, Cell) {
    |j: int|
        (
            point_shape(v.inner.x + j, v.inner.y as int),
            Cell {
                ch: v.chars[v.start + j],
                style: if focused && v.start + j == v.cur {
                    v.cursor_style
                } else {
                    v.text_style
                },
            },
        )
}

impl Input {
    /// How the field is drawn when it is (or is not) focused.
    pub open spec fn view_spec(&self, focused: bool) -> InputView {
        let st = if focused {
            self.focus_style_spec()
        } else {
            self.style_spec()
        };
        let inner = self.rect_spec().inset_spec(1, 1);
        let width = inner.w as int;
        let shown = shown_text(self.model().value, self.mask_spec());
        let hinting = shown.len() == 0 && !focused;
        let chars = if hinting {
            self.hint_spec()
        } else {
            shown
        };
        let cur = if hinting {
            0
        } else {
            self.model().cursor
        };
        let start = if cur >= width {
            cur - width + 1
        } else {
            0
        };
        let room = inner.right_spec() - inner.x;
        let count = if chars.len() > start {
            if chars.len() - start <= room {
                chars.len() - start
            } else {
                room
            }
        } else {
            0
        };
        InputView {
            inner,
            chars,
            st,
            text_style: if hinting {
                st.patch_spec(hint_overlay())
            } else {
                st
            },
            cursor_style: st.patch_spec(reversed()),
            start,
            cur,
            count,
            trailing_cursor: focused && cur >= chars.len() && count < room,
        }
    }

    /// The layers drawn for view `v`: the thin border, the visible
    /// characters one per cell, and the cursor block past the end.
    pub open spec fn layers_spec(&self, focused: bool) -> Seq<(Shape, Cell)> {
        let v = self.view_spec(focused);
        let x0 = v.inner.x as int;
        let y = v.inner.y as int;
        border_layers(self.rect_spec(), thin_set(), v.st) + Seq::new(
            v.count as nat,
            char_layer(v, focused)) + if v.trailing_cursor {
            seq![(point_shape(x0 + v.count, y), Cell { ch: ' ', style: v.cursor_style })]
        } else {
            seq![]
        }
    }
}

/// The single-line border set.
pub open spec fn thin_set() -> crate::border::BorderSet {
    border_of('┌', '┐', '└', '┘', '─', '│')
}

impl Input {
    /// The characters shown: the value, or the mask repeated.
    fn shown(&self) -> (v: Vec<char>)
        ensures
            v@ == shown_text(self.model().value, self.mask_spec()),
    {
        match self.mask {
            Some(m) => {
                let mut v: Vec<char> = Vec::new();
                let mut i: usize = 0;
                while i < self.value.len()
                    invariant
                        i <= self.value.len(),
                        v@ == Seq::new(i as nat, |k: int| m),
                    decreases self.value.len() - i,
                {
                    v.push(m);
                    assert(v@ =~= Seq::new((i + 1) as nat, |k: int| m));
                    i = i + 1;
                }
                v
            },
            None => self.value.clone(),
        }
    }

    /// Draw the field.
    pub fn draw(&mut self, frame: &mut Frame)
        requires
            old(self).wf(),
            old(self).model().value.len() < usize::MAX,
            old(frame).count_spec() < usize::MAX,
            old(frame).target().wf(),
        ensures
            ({
                let focused = old(frame).focus_spec() == old(frame).count_spec() || old(
                    frame,
                ).requested_spec() == Some(old(frame).count_spec());
                &&& final(self).wf()
                &&& final(self).id_spec() == old(frame).count_spec()
                &&& final(self).model() == if focused {
                    InputModel { focused: true, ..old(self).model() }
                } else {
                    old(self).model()
                }
                &&& drawn(
                    *old(frame).target(),
                    *final(frame).target(),
                    old(frame).target().area,
                    old(self).layers_spec(focused),
                )
            }),
            final(frame).count_spec() == old(frame).count_spec() + 1,
            final(frame).area_spec() == old(frame).area_spec(),
            final(frame).level_spec() == old(frame).level_spec(),
            final(frame).focus_spec() == old(frame).focus_spec(),
            final(frame).requested_spec() == old(frame).requested_spec(),
            *final(final(frame).target()) == *final(old(frame).target()),
            final(self).rect_spec() == old(self).rect_spec(),
            final(self).hint_spec() == old(self).hint_spec(),
            final(self).mask_spec() == old(self).mask_spec(),
            final(self).style_spec() == old(self).style_spec(),
            final(self).focus_style_spec() == old(self).focus_style_spec(),
            final(self).max_spec() == old(self).max_spec(),
    {
        let ghost me = *self;
        let is_focused = frame.register_focus();
        self.id = frame.focus_count() - 1;
        if is_focused {
            self.focused = true;
        }
        let ghost v = me.view_spec(is_focused);
        let st = if is_focused {
            self.focus_style
        } else {
            self.style
        };
        let inner = self.rect.inner();
        let width = inner.w as usize;
        let shown = self.shown();
        let hinting = shown.len() == 0 && !is_focused;
        let chars: Vec<char> = if hinting {
            self.hint.clone()
        } else {
            shown
        };
        let text_style = if hinting {
            st.patch(Style::default().dim(true).fg(Color::BrightBlack))
        } else {
            st
        };
        let cursor_style = st.patch(Style::default().reverse(true));
        let cur = if hinting {
            0
        } else {
            self.cursor
        };
        let start = if cur >= width {
            cur - width + 1
        } else {
            0
        };
        let right = inner.right();
        let mut c = frame.canvas();
        let ghost b0 = *c.target();
        let ghost cfin = *final(c.target());
        let ghost clip = c.clip_rect();
        c.border(self.rect, thin(), st);
        let ghost b1 = *c.target();
        let ghost mut layers = border_layers(me.rect_spec(), thin_set(), st);
        let mut screen_x: u16 = inner.x;
        let mut i = start;
        let mut k: usize = 0;
        assert(layers + Seq::new(0, char_layer(v, is_focused)) =~= layers);
        while i < chars.len() && screen_x < right
            invariant
                start <= i,
                k == i - start,
                screen_x == inner.x + k,
                v == me.view_spec(is_focused),
                chars@ == v.chars,
                inner == v.inner,
                start == v.start,
                cur == v.cur,
                right == inner.right_spec(),
                cursor_style == v.cursor_style,
                text_style == v.text_style,
                st == v.st,
                c.clip_rect() == clip,
                clip == b0.area,
                *final(c.target()) == cfin,
                k <= v.count,
                drawn(b0, *c.target(), clip, layers + Seq::new(
                    k as nat,
                    char_layer(v, is_focused))),
            decreases chars.len() - i,
        {
            let ch = chars[i];
            let cell_style = if is_focused && i == cur {
                cursor_style
            } else {
                text_style
            };
            let ghost mid = *c.target();
            c.dot(screen_x as i32, inner.y as i32, ch, cell_style);
            proof {
                let f = char_layer(v, is_focused);
                let prev = layers + Seq::new(k as nat, f);
                let one = seq![(point_shape(screen_x as int, inner.y as int), Cell { ch, style: cell_style })];
                lemma_drawn_compose(b0, mid, *c.target(), clip, prev, one);
                assert(f(k as int) == one[0]);
                assert(Seq::new((k + 1) as nat, f) =~= Seq::new(k as nat, f).push(f(k as int)));
                assert(prev + one =~= layers + Seq::new((k + 1) as nat, f));
            }
            screen_x = screen_x + 1;
            i = i + 1;
            k = k + 1;
        }
        assert(k == v.count);
        if is_focused && cur >= chars.len() && screen_x < right {
            let ghost mid = *c.target();
            c.dot(screen_x as i32, inner.y as i32, ' ', cursor_style);
            proof {
                let prev = layers + Seq::new(k as nat, char_layer(v, is_focused));
                lemma_drawn_compose(b0, mid, *c.target(), clip, prev, seq![(point_shape(screen_x as int, inner.y as int), Cell { ch: ' ', style: cursor_style })]);
            }
        } else {
            assert(layers + Seq::new(k as nat, char_layer(v, is_focused)) + seq![] =~= layers + Seq::new(k as nat, char_layer(v, is_focused)));
        }
    }
}

/// Typing a character and then Backspace gives back the text and cursor
/// (the character is accepted when the field is focused, the key has no
/// Ctrl and the limit leaves room).
pub proof fn law_type_then_backspace(m: InputModel, rect: Rect, max: Option<usize>, c: char)
    requires
        0 <= m.cursor <= m.value.len(),
        m.focused,
        !(max matches Some(mx) && m.value.len() >= mx),
    ensures
        ({
            let typed = input_step(m, rect, max, Event::Key(plain_key(KeyCode::Char(c))));
            let back = input_step(typed, rect, max, Event::Key(plain_key(KeyCode::Backspace)));
            &&& typed.value == m.value.insert(m.cursor, c)
            &&& back.value == m.value
            &&& back.cursor == m.cursor
            &&& back.focused
        }),
{
    let typed = input_step(m, rect, max, Event::Key(plain_key(KeyCode::Char(c))));
    assert(typed.value.remove(typed.cursor - 1) =~= m.value);
}


/// Delete and Backspace in a focused field, for any key modifiers: Delete
/// takes out the character under the cursor (the one at index `cursor`)
/// and leaves the cursor where it is; Backspace takes out the one before
/// the cursor and moves the cursor back onto its place. At the end of the
/// text Delete changes nothing, and at its start Backspace changes nothing.
/// So Delete is Right followed by Backspace whenever the cursor is not at
/// the end.
pub proof fn law_delete_and_backspace(m: InputModel, rect: Rect, max: Option<usize>, k: Key)
    requires
        0 <= m.cursor <= m.value.len(),
        m.focused,
    ensures
        ({
            let del = input_step(m, rect, max, Event::Key(Key { code: KeyCode::Delete, ..k }));
            let back = input_step(m, rect, max, Event::Key(Key { code: KeyCode::Backspace, ..k }));
            let right = input_step(m, rect, max, Event::Key(Key { code: KeyCode::Right, ..k }));
            let right_back = input_step(right, rect, max, Event::Key(Key { code: KeyCode::Backspace, ..k }));
            &&& m.cursor < m.value.len() ==> del.value == m.value.take(m.cursor) + m.value.skip(m.cursor + 1)
            &&& m.cursor < m.value.len() ==> del.value.len() == m.value.len() - 1
            &&& del.cursor == m.cursor
            &&& m.cursor == m.value.len() ==> del.value == m.value
            &&& 0 < m.cursor ==> back.value == m.value.take(m.cursor - 1) + m.value.skip(m.cursor)
            &&& 0 < m.cursor ==> back.cursor == m.cursor - 1
            &&& m.cursor == 0 ==> back.value == m.value && back.cursor == 0
            &&& m.cursor < m.value.len() ==> right_back.value == del.value && right_back.cursor == del.cursor
        }),
{
    let del = input_step(m, rect, max, Event::Key(Key { code: KeyCode::Delete, ..k }));
    let back = input_step(m, rect, max, Event::Key(Key { code: KeyCode::Backspace, ..k }));
    if m.cursor < m.value.len() {
        assert(del.value =~= m.value.take(m.cursor) + m.value.skip(m.cursor + 1));
    }
    if 0 < m.cursor {
        assert(back.value =~= m.value.take(m.cursor - 1) + m.value.skip(m.cursor));
    }
}

/// The editing keys of a focused field, for any modifiers: Left and Right
/// move the cursor one place, stopping at either end of the text; Home and
/// End move it to the start and the end; none of them changes the text.
/// Enter submits and Esc leaves the field, both keeping text and cursor.
/// A field without focus ignores every key.
pub proof fn law_input_keys(m: InputModel, rect: Rect, max: Option<usize>, k: Key)
    requires
        0 <= m.cursor <= m.value.len(),
    ensures
        ({
            let step = |code: KeyCode| input_step(m, rect, max, Event::Key(Key { code, ..k }));
            &&& m.focused ==> step(KeyCode::Left).cursor == (if m.cursor > 0 { m.cursor - 1 } else { 0 })
            &&& m.focused ==> step(KeyCode::Right).cursor == (if m.cursor < m.value.len() {
                m.cursor + 1
            } else {
                m.value.len() as int
            })
            &&& m.focused ==> step(KeyCode::Home).cursor == 0
            &&& m.focused ==> step(KeyCode::End).cursor == m.value.len()
            &&& m.focused ==> step(KeyCode::Left).value == m.value && step(KeyCode::Right).value == m.value
            &&& m.focused ==> step(KeyCode::Home).value == m.value && step(KeyCode::End).value == m.value
            &&& m.focused ==> step(KeyCode::Enter).submitted && step(KeyCode::Enter).focused
            &&& m.focused ==> step(KeyCode::Enter).value == m.value && step(KeyCode::Enter).cursor == m.cursor
            &&& m.focused ==> !step(KeyCode::Esc).focused && step(KeyCode::Esc).value == m.value
            &&& !m.focused ==> input_step(m, rect, max, Event::Key(k)).value == m.value
                && input_step(m, rect, max, Event::Key(k)).cursor == m.cursor
                && !input_step(m, rect, max, Event::Key(k)).focused
                && !input_step(m, rect, max, Event::Key(k)).submitted
        }),
{
}
} // verus!
