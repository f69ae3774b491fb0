//! `Style` — foreground/background, text attributes and transparency.
//!
//! Transparency is expressed two ways: with [`Color::Reset`] (show the
//! terminal background) or with the style's `alpha`, which emits an RGBA
//! escape supported by Kitty-style terminals. `alpha` is `None` for an
//! opaque background; `Some(a)` makes it translucent, with the RGBA escape
//! carrying `a` (in 255ths: 0 is fully transparent).
use vstd::prelude::*;
use crate::ansi::{csi, dec, push_chars, push_dec};
use crate::color::{basic_color, color_code, Color, ColorLevel};

verus! {

/// A cell's visual style.
#[derive(Clone, Copy, Debug, PartialEq, Eq, Structural)]
pub struct Style {
    pub fg: Color,
    pub bg: Color,
    pub bold: bool,
    pub dim: bool,
    pub italic: bool,
    pub underline: bool,
    pub double_underline: bool,
    pub strikethrough: bool,
    pub blink: bool,
    pub fast_blink: bool,
    pub reverse: bool,
    pub hidden: bool,
    /// Background opacity: `None` = opaque; `Some(a)` = translucent, sent as
    /// the alpha `a` (in 255ths) of an RGBA escape.
    pub alpha: Option<u8>,
}

/// The empty style: terminal colors, no attributes, opaque.
pub open spec fn plain_style() -> Style {
    Style {
        fg: Color::Reset,
        bg: Color::Reset,
        bold: false,
        dim: false,
        italic: false,
        underline: false,
        double_underline: false,
        strikethrough: false,
        blink: false,
        fast_blink: false,
        reverse: false,
        hidden: false,
        alpha: None,
    }
}

impl Default for Style {
    fn default() -> (s: Style)
        ensures
            s == plain_style(),
    {
        Style {
            fg: Color::Reset,
            bg: Color::Reset,
            bold: false,
            dim: false,
            italic: false,
            underline: false,
            double_underline: false,
            strikethrough: false,
            blink: false,
            fast_blink: false,
            reverse: false,
            hidden: false,
            alpha: None,
        }
    }
}

/// Parameters joined with `;`.
pub open spec fn join_params(ps: Seq<Seq<char>>) -> Seq<char>
    decreases ps.len(),
{
    if ps.len() == 0 {
        seq![]
    } else if ps.len() == 1 {
        ps[0]
    } else {
        join_params(ps.drop_last()) + seq![';'] + ps.last()
    }
}

/// The RGBA color parameter `<lead>8:2::r:g:b:a`.
pub open spec fn rgba_code(lead: char, r: u8, g: u8, b: u8, a: u8) -> Seq<char> {
    seq![lead, '8', ':', '2', ':', ':'] + dec(r as nat) + seq![':'] + dec(g as nat) + seq![':']
        + dec(b as nat) + seq![':'] + dec(a as nat)
}

/// Single-element sequence when `on`, else empty.
pub open spec fn param_if(on: bool, p: Seq<char>) -> Seq<Seq<char>> {
    if on {
        seq![p]
    } else {
        seq![]
    }
}

impl Style {
    /// The foreground parameter, if any.
    pub open spec fn fg_params(self, level: ColorLevel) -> Seq<Seq<char>> {
        let fg = self.fg.degrade_spec(level);
        if let Some(a) = self.alpha {
            match fg {
                Color::Rgb(r, g, b) => seq![rgba_code('3', r, g, b, a)],
                _ => seq![color_code(fg, false)],
            }
        } else {
            param_if(fg != Color::Reset, color_code(fg, false))
        }
    }

    /// The background parameter, if any.
    pub open spec fn bg_params(self, level: ColorLevel) -> Seq<Seq<char>> {
        let bg = self.bg.degrade_spec(level);
        if bg == Color::Reset {
            seq![]
        } else if let Some(a) = self.alpha {
            match bg {
                Color::Rgb(r, g, b) => seq![rgba_code('4', r, g, b, a)],
                _ => seq![color_code(bg, true)],
            }
        } else {
            seq![color_code(bg, true)]
        }
    }

    /// The attributes with their SGR numbers, in emission order.
    pub open spec fn attr_flags(self) -> Seq<(bool, u32)> {
        seq![
            (self.bold, 1u32),
            (self.dim, 2u32),
            (self.italic, 3u32),
            (self.underline, 4u32),
            (self.double_underline, 21u32),
            (self.blink, 5u32),
            (self.fast_blink, 6u32),
            (self.reverse, 7u32),
            (self.hidden, 8u32),
            (self.strikethrough, 9u32),
        ]
    }

    /// The attribute parameters, in emission order.
    pub open spec fn attr_params(self) -> Seq<Seq<char>> {
        flag_params(self.attr_flags())
    }

    /// The SGR sequence that selects this style on a `level` terminal.
    pub open spec fn open_spec(self, level: ColorLevel) -> Seq<char> {
        csi() + join_params(self.fg_params(level) + self.bg_params(level) + self.attr_params())
            + seq!['m']
    }

    /// Start from an empty (reset) style.
    pub fn new() -> (s: Style)
        ensures
            s == plain_style(),
    {
        Style::default()
    }

    pub fn fg(self, c: Color) -> (s: Style)
        ensures
            s == (Style { fg: c, ..self }),
    {
        Style { fg: c, ..self }
    }

    pub fn bg(self, c: Color) -> (s: Style)
        ensures
            s == (Style { bg: c, ..self }),
    {
        Style { bg: c, ..self }
    }

    pub fn color(self, fg: Color, bg: Color) -> (s: Style)
        ensures
            s == (Style { fg, bg, ..self }),
    {
        Style { fg, bg, ..self }
    }

    pub fn bold(self, v: bool) -> (s: Style)
        ensures
            s == (Style { bold: v, ..self }),
    {
        Style { bold: v, ..self }
    }

    pub fn dim(self, v: bool) -> (s: Style)
        ensures
            s == (Style { dim: v, ..self }),
    {
        Style { dim: v, ..self }
    }

    pub fn italic(self, v: bool) -> (s: Style)
        ensures
            s == (Style { italic: v, ..self }),
    {
        Style { italic: v, ..self }
    }

    pub fn underline(self, v: bool) -> (s: Style)
        ensures
            s == (Style { underline: v, ..self }),
    {
        Style { underline: v, ..self }
    }

    pub fn dunderline(self, v: bool) -> (s: Style)
        ensures
            s == (Style { double_underline: v, ..self }),
    {
        Style { double_underline: v, ..self }
    }

    pub fn strike(self, v: bool) -> (s: Style)
        ensures
            s == (Style { strikethrough: v, ..self }),
    {
        Style { strikethrough: v, ..self }
    }

    pub fn blink(self, v: bool) -> (s: Style)
        ensures
            s == (Style { blink: v, ..self }),
    {
        Style { blink: v, ..self }
    }

    pub fn fast_blink(self, v: bool) -> (s: Style)
        ensures
            s == (Style { fast_blink: v, ..self }),
    {
        Style { fast_blink: v, ..self }
    }

    pub fn reverse(self, v: bool) -> (s: Style)
        ensures
            s == (Style { reverse: v, ..self }),
    {
        Style { reverse: v, ..self }
    }

    pub fn hidden(self, v: bool) -> (s: Style)
        ensures
            s == (Style { hidden: v, ..self }),
    {
        Style { hidden: v, ..self }
    }

    /// Make the background translucent, with opacity `a` in 255ths (sent in
    /// an RGBA escape; 0 is fully transparent).
    pub fn alpha(self, a: u8) -> (s: Style)
        ensures
            s == (Style { alpha: Some(a), ..self }),
    {
        Style { alpha: Some(a), ..self }
    }

    /// Shorthand: fully transparent background.
    pub fn transparent(self) -> (s: Style)
        ensures
            s == (Style { bg: Color::Reset, alpha: Some(0), ..self }),
    {
        Style { bg: Color::Reset, alpha: Some(0), ..self }
    }

    /// `self` with `o` laid on top: `o`'s non-default colors win, attributes
    /// accumulate, and a translucent `o` sets the opacity.
    pub open spec fn patch_spec(self, o: Style) -> Style {
        Style {
            fg: if o.fg != Color::Reset {
                o.fg
            } else {
                self.fg
            },
            bg: if o.bg != Color::Reset {
                o.bg
            } else {
                self.bg
            },
            bold: self.bold || o.bold,
            dim: self.dim || o.dim,
            italic: self.italic || o.italic,
            underline: self.underline || o.underline,
            double_underline: self.double_underline || o.double_underline,
            strikethrough: self.strikethrough || o.strikethrough,
            blink: self.blink || o.blink,
            fast_blink: self.fast_blink || o.fast_blink,
            reverse: self.reverse || o.reverse,
            hidden: self.hidden || o.hidden,
            alpha: if o.alpha is Some {
                o.alpha
            } else {
                self.alpha
            },
        }
    }

    /// Merge another style on top (non-default fields win).
    pub fn patch(self, o: Style) -> (s: Style)
        ensures
            s == self.patch_spec(o),
    {
        Style {
            fg: if o.fg != Color::Reset {
                o.fg
            } else {
                self.fg
            },
            bg: if o.bg != Color::Reset {
                o.bg
            } else {
                self.bg
            },
            bold: self.bold || o.bold,
            dim: self.dim || o.dim,
            italic: self.italic || o.italic,
            underline: self.underline || o.underline,
            double_underline: self.double_underline || o.double_underline,
            strikethrough: self.strikethrough || o.strikethrough,
            blink: self.blink || o.blink,
            fast_blink: self.fast_blink || o.fast_blink,
            reverse: self.reverse || o.reverse,
            hidden: self.hidden || o.hidden,
            alpha: if o.alpha.is_some() {
                o.alpha
            } else {
                self.alpha
            },
        }
    }

    /// Build the opening SGR sequence for this style, auto-degraded to
    /// the terminal's [`ColorLevel`].
    pub fn open(&self, level: ColorLevel) -> (out: String)
        ensures
            out@ == self.open_spec(level),
    {
        let mut out = String::new();
        push_chars(&mut out, &['\x1b', '[']);
        assert(out@ =~= csi() + join_params(seq![]));
        let count = self.push_colors(&mut out, level);
        let ghost head = self.fg_params(level) + self.bg_params(level);
        self.push_attrs(&mut out, count, Ghost(head));
        push_chars(&mut out, &['m']);
        out
    }

    /// Appends the color parameters.
    fn push_colors(&self, out: &mut String, level: ColorLevel) -> (count: usize)
        requires
            old(out)@ == csi() + join_params(seq![]),
        ensures
            final(out)@ == csi() + join_params(self.fg_params(level) + self.bg_params(level)),
            count == (self.fg_params(level) + self.bg_params(level)).len(),
    {
        let fg = self.fg.degrade(level);
        let bg = self.bg.degrade(level);
        let mut count: usize = 0;
        if self.alpha.is_some() || fg != Color::Reset {
            match (fg, self.alpha) {
                (Color::Rgb(r, g, b), Some(a)) => {
                    push_rgba(out, '3', r, g, b, a);
                },
                _ => {
                    fg.fg_code(out);
                },
            }
            proof {
                let p = self.fg_params(level)[0];
                lemma_join_push(seq![], p);
                assert(seq![].push(p) =~= self.fg_params(level));
            }
            count = 1;
        } else {
            assert(self.fg_params(level) =~= seq![]);
        }
        let ghost ps = self.fg_params(level);
        if bg != Color::Reset {
            separate(out, count);
            match (bg, self.alpha) {
                (Color::Rgb(r, g, b), Some(a)) => {
                    push_rgba(out, '4', r, g, b, a);
                },
                _ => {
                    bg.bg_code(out);
                },
            }
            proof {
                let p = self.bg_params(level)[0];
                lemma_join_push(ps, p);
                assert(ps.push(p) =~= ps + self.bg_params(level));
            }
            count = count + 1;
        } else {
            assert(ps + self.bg_params(level) =~= ps);
        }
        count
    }

    /// Appends the attribute parameters after `ps`.
    fn push_attrs(&self, out: &mut String, count: usize, Ghost(ps): Ghost<Seq<Seq<char>>>)
        requires
            old(out)@ == csi() + join_params(ps),
            count == ps.len(),
            count <= 2,
        ensures
            final(out)@ == csi() + join_params(ps + self.attr_params()),
    {
        let flags: [(bool, u32); 10] = [
            (self.bold, 1),
            (self.dim, 2),
            (self.italic, 3),
            (self.underline, 4),
            (self.double_underline, 21),
            (self.blink, 5),
            (self.fast_blink, 6),
            (self.reverse, 7),
            (self.hidden, 8),
            (self.strikethrough, 9),
        ];
        assert(flags@ =~= self.attr_flags());
        let mut c = count;
        let mut k: usize = 0;
        assert(flags@.take(0) =~= seq![]);
        assert(ps + flag_params(flags@.take(0)) =~= ps);
        while k < 10
            invariant
                k <= 10,
                flags@ == self.attr_flags(),
                c == ps.len() + flag_params(flags@.take(k as int)).len(),
                c <= 2 + k,
                out@ == csi() + join_params(ps + flag_params(flags@.take(k as int))),
            decreases 10 - k,
        {
            let (on, code) = flags[k];
            let ghost acc = flag_params(flags@.take(k as int));
            assert(flags@.take(k + 1).drop_last() =~= flags@.take(k as int));
            c = flag_param(out, c, on, code, Ghost(ps + acc));
            assert(ps + acc + param_if(on, dec(code as nat)) =~= ps + (acc + param_if(
                on,
                dec(code as nat),
            )));
            k = k + 1;
        }
        assert(flags@.take(10) =~= flags@);
    }
}

/// The parameters of the flags that are on.
pub open spec fn flag_params(fs: Seq<(bool, u32)>) -> Seq<Seq<char>>
    decreases fs.len(),
{
    if fs.len() == 0 {
        seq![]
    } else {
        flag_params(fs.drop_last()) + param_if(fs.last().0, dec(fs.last().1 as nat))
    }
}

proof fn lemma_join_push(ps: Seq<Seq<char>>, p: Seq<char>)
    ensures
        join_params(ps.push(p)) == join_params(ps) + (if ps.len() > 0 {
            seq![';']
        } else {
            seq![]
        }) + p,
{
    assert(ps.push(p).drop_last() =~= ps);
    if ps.len() == 0 {
        assert(join_params(ps.push(p)) == p);
        assert(seq![] + seq![] + p =~= p);
    }
}

/// Appends `;` when at least one parameter has already been written.
fn separate(out: &mut String, count: usize)
    ensures
        final(out)@ == old(out)@ + (if count > 0 {
            seq![';']
        } else {
            seq![]
        }),
{
    if count > 0 {
        push_chars(out, &[';']);
    } else {
        assert(old(out)@ + seq![] =~= old(out)@);
    }
}

/// Appends the RGBA color parameter `<lead>8:2::r:g:b:a`.
fn push_rgba(out: &mut String, lead: char, r: u8, g: u8, b: u8, a: u8)
    ensures
        final(out)@ == old(out)@ + rgba_code(lead, r, g, b, a),
{
    push_chars(out, &[lead, '8', ':', '2', ':', ':']);
    push_dec(out, r as u32);
    push_chars(out, &[':']);
    push_dec(out, g as u32);
    push_chars(out, &[':']);
    push_dec(out, b as u32);
    push_chars(out, &[':']);
    push_dec(out, a as u32);
    assert(out@ =~= old(out)@ + rgba_code(lead, r, g, b, a));
}

/// Appends the parameter `code` when `on`.
fn flag_param(out: &mut String, count: usize, on: bool, code: u32, Ghost(ps): Ghost<Seq<Seq<char>>>) -> (c: usize)
    requires
        old(out)@ == csi() + join_params(ps),
        count == ps.len(),
        count < 100,
    ensures
        final(out)@ == csi() + join_params(ps + param_if(on, dec(code as nat))),
        c == (ps + param_if(on, dec(code as nat))).len(),
        c <= count + 1,
{
    if on {
        separate(out, count);
        push_dec(out, code);
        proof {
            lemma_join_push(ps, dec(code as nat));
            assert(ps + param_if(on, dec(code as nat)) =~= ps.push(dec(code as nat)));
        }
        count + 1
    } else {
        assert(ps + param_if(on, dec(code as nat)) =~= ps);
        count
    }
}

/// Convenience: a style with only a foreground color.
pub fn fg(c: Color) -> (s: Style)
    ensures
        s == (Style { fg: c, ..plain_style() }),
{
    Style::new().fg(c)
}

/// Patching with the plain style changes nothing.
pub proof fn law_patch_plain_is_identity(s: Style)
    ensures
        s.patch_spec(plain_style()) == s,
{
}

/// Patching twice with the same style is patching once.
pub proof fn law_patch_idempotent(s: Style, o: Style)
    ensures
        s.patch_spec(o).patch_spec(o) == s.patch_spec(o),
{
}


proof fn lemma_flags_none(fs: Seq<(bool, u32)>)
    requires
        forall|i: int| 0 <= i < fs.len() ==> !(#[trigger] fs[i]).0,
    ensures
        flag_params(fs) == Seq::<Seq<char>>::empty(),
    decreases fs.len(),
{
    if fs.len() > 0 {
        let p = fs.drop_last();
        assert forall|i: int| 0 <= i < p.len() implies !(#[trigger] p[i]).0 by {
            assert(p[i] == fs[i]);
        }
        lemma_flags_none(p);
        assert(!fs.last().0);
        assert(flag_params(fs) =~= Seq::<Seq<char>>::empty());
    }
}

proof fn lemma_flags_one(fs: Seq<(bool, u32)>, j: int)
    requires
        0 <= j < fs.len(),
        fs[j].0,
        forall|i: int| 0 <= i < fs.len() && i != j ==> !(#[trigger] fs[i]).0,
    ensures
        flag_params(fs) == seq![dec(fs[j].1 as nat)],
    decreases fs.len(),
{
    let p = fs.drop_last();
    if j == fs.len() - 1 {
        assert forall|i: int| 0 <= i < p.len() implies !(#[trigger] p[i]).0 by {
            assert(p[i] == fs[i]);
        }
        lemma_flags_none(p);
        assert(flag_params(fs) =~= seq![dec(fs[j].1 as nat)]);
    } else {
        assert forall|i: int| 0 <= i < p.len() && i != j implies !(#[trigger] p[i]).0 by {
            assert(p[i] == fs[i]);
        }
        assert(p[j] == fs[j]);
        lemma_flags_one(p, j);
        assert(!fs.last().0);
        assert(flag_params(fs) =~= seq![dec(fs[j].1 as nat)]);
    }
}

/// The SGR number of palette entry `k < 16` as a foreground color:
/// `30`–`37`, then `90`–`97` for the bright half.
pub open spec fn sgr_fg_number(k: int) -> int {
    if k < 8 {
        30 + k
    } else {
        82 + k
    }
}

/// What a style sends, stated by the SGR numbers of ECMA-48 and xterm:
/// the plain style sends `ESC [ m`; one named color alone sends its number
/// (`30`–`37` and `90`–`97` as foreground, ten more as background) on any
/// terminal with colors; a palette color sends `38;5;n`, a true color
/// `38;2;r;g;b`; on a terminal without colors no color is sent.
pub proof fn law_style_color_codes(level: ColorLevel, k: int, c: u8, r: u8, g: u8, b: u8, fg: Color, bg: Color)
    ensures
        plain_style().open_spec(level) == seq!['\x1b', '[', 'm'],
        0 <= k < 16 && level != ColorLevel::NoColor ==> (Style { fg: basic_color(k), ..plain_style() }).open_spec(level)
            == seq!['\x1b', '['] + dec(sgr_fg_number(k) as nat) + seq!['m'],
        0 <= k < 16 && level != ColorLevel::NoColor ==> (Style { bg: basic_color(k), ..plain_style() }).open_spec(level)
            == seq!['\x1b', '['] + dec((sgr_fg_number(k) + 10) as nat) + seq!['m'],
        level == ColorLevel::Ansi256 || level == ColorLevel::Rgb ==> (Style { fg: Color::Ansi(c), ..plain_style() }).open_spec(level)
            == seq!['\x1b', '[', '3', '8', ';', '5', ';'] + dec(c as nat) + seq!['m'],
        (Style { fg: Color::Rgb(r, g, b), ..plain_style() }).open_spec(ColorLevel::Rgb) == seq!['\x1b', '[', '3', '8', ';', '2', ';']
            + dec(r as nat) + seq![';'] + dec(g as nat) + seq![';'] + dec(b as nat) + seq!['m'],
        (Style { fg, bg, ..plain_style() }).open_spec(ColorLevel::NoColor) == seq!['\x1b', '[', 'm'],
{
    lemma_flags_none(plain_style().attr_flags());
    assert(plain_style().open_spec(level) =~= seq!['\x1b', '[', 'm']);
    if 0 <= k < 16 && level != ColorLevel::NoColor {
        let s1 = Style { fg: basic_color(k), ..plain_style() };
        let s2 = Style { bg: basic_color(k), ..plain_style() };
        lemma_flags_none(s1.attr_flags());
        lemma_flags_none(s2.attr_flags());
        assert(basic_color(k).degrade_spec(level) == basic_color(k));
        assert(crate::color::fg_number(basic_color(k)) == sgr_fg_number(k));
        assert(s1.fg_params(level) + s1.bg_params(level) + s1.attr_params() =~= seq![dec(sgr_fg_number(k) as nat)]);
        assert(s2.fg_params(level) + s2.bg_params(level) + s2.attr_params() =~= seq![dec((sgr_fg_number(k) + 10) as nat)]);
    }
    let s3 = Style { fg: Color::Ansi(c), ..plain_style() };
    lemma_flags_none(s3.attr_flags());
    if level == ColorLevel::Ansi256 || level == ColorLevel::Rgb {
        assert(s3.fg_params(level) + s3.bg_params(level) + s3.attr_params() =~= seq![color_code(Color::Ansi(c), false)]);
    }
    let s4 = Style { fg: Color::Rgb(r, g, b), ..plain_style() };
    lemma_flags_none(s4.attr_flags());
    assert(s4.fg_params(ColorLevel::Rgb) + s4.bg_params(ColorLevel::Rgb) + s4.attr_params() =~= seq![
        color_code(Color::Rgb(r, g, b), false),
    ]);
    let s5 = Style { fg, bg, ..plain_style() };
    lemma_flags_none(s5.attr_flags());
    assert(s5.fg_params(ColorLevel::NoColor) + s5.bg_params(ColorLevel::NoColor) + s5.attr_params() =~= Seq::<Seq<char>>::empty());
}

/// Each text attribute alone sends its ECMA-48 SGR number: bold `1`, dim
/// `2`, italic `3`, underline `4`, double underline `21`, blink `5`, fast
/// blink `6`, reverse `7`, hidden `8`, strikethrough `9`, whatever the
/// terminal's color level.
pub proof fn law_style_attribute_codes(level: ColorLevel)
    ensures
        (Style { bold: true, ..plain_style() }).open_spec(level) == seq!['\x1b', '[', '1', 'm'],
        (Style { dim: true, ..plain_style() }).open_spec(level) == seq!['\x1b', '[', '2', 'm'],
        (Style { italic: true, ..plain_style() }).open_spec(level) == seq!['\x1b', '[', '3', 'm'],
        (Style { underline: true, ..plain_style() }).open_spec(level) == seq!['\x1b', '[', '4', 'm'],
        (Style { double_underline: true, ..plain_style() }).open_spec(level) == seq!['\x1b', '[', '2', '1', 'm'],
        (Style { blink: true, ..plain_style() }).open_spec(level) == seq!['\x1b', '[', '5', 'm'],
        (Style { fast_blink: true, ..plain_style() }).open_spec(level) == seq!['\x1b', '[', '6', 'm'],
        (Style { reverse: true, ..plain_style() }).open_spec(level) == seq!['\x1b', '[', '7', 'm'],
        (Style { hidden: true, ..plain_style() }).open_spec(level) == seq!['\x1b', '[', '8', 'm'],
        (Style { strikethrough: true, ..plain_style() }).open_spec(level) == seq!['\x1b', '[', '9', 'm'],
{
    let ss = seq![
        Style { bold: true, ..plain_style() },
        Style { dim: true, ..plain_style() },
        Style { italic: true, ..plain_style() },
        Style { underline: true, ..plain_style() },
        Style { double_underline: true, ..plain_style() },
        Style { blink: true, ..plain_style() },
        Style { fast_blink: true, ..plain_style() },
        Style { reverse: true, ..plain_style() },
        Style { hidden: true, ..plain_style() },
        Style { strikethrough: true, ..plain_style() },
    ];
    assert forall|j: int| 0 <= j < 10 implies (#[trigger] ss[j]).fg_params(level) + ss[j].bg_params(level)
        + ss[j].attr_params() == seq![dec(ss[j].attr_flags()[j].1 as nat)] by {
        lemma_flags_one(ss[j].attr_flags(), j);
        assert(ss[j].fg_params(level) + ss[j].bg_params(level) + ss[j].attr_params() =~= ss[j].attr_params());
    }
    assert(dec(21) == seq!['2', '1']) by {
        assert(dec(2) == seq!['2']);
        assert(dec(2).push('1') =~= seq!['2', '1']);
    }
    assert forall|j: int| 0 <= j < 10 implies (#[trigger] ss[j]).open_spec(level) == seq!['\x1b', '['] + dec(
        ss[j].attr_flags()[j].1 as nat,
    ) + seq!['m'] by {
        assert(join_params(seq![dec(ss[j].attr_flags()[j].1 as nat)]) == dec(ss[j].attr_flags()[j].1 as nat));
    }
    assert(ss[0].open_spec(level) =~= seq!['\x1b', '[', '1', 'm']);
    assert(ss[1].open_spec(level) =~= seq!['\x1b', '[', '2', 'm']);
    assert(ss[2].open_spec(level) =~= seq!['\x1b', '[', '3', 'm']);
    assert(ss[3].open_spec(level) =~= seq!['\x1b', '[', '4', 'm']);
    assert(ss[4].open_spec(level) =~= seq!['\x1b', '[', '2', '1', 'm']);
    assert(ss[5].open_spec(level) =~= seq!['\x1b', '[', '5', 'm']);
    assert(ss[6].open_spec(level) =~= seq!['\x1b', '[', '6', 'm']);
    assert(ss[7].open_spec(level) =~= seq!['\x1b', '[', '7', 'm']);
    assert(ss[8].open_spec(level) =~= seq!['\x1b', '[', '8', 'm']);
    assert(ss[9].open_spec(level) =~= seq!['\x1b', '[', '9', 'm']);
}
} // verus!
