//! Colors — 4-bit, 8-bit (ansi256) and full 24-bit RGB, palettes, and
//! automatic degradation to what a terminal can show.
use vstd::prelude::*;
use crate::ansi::{dec, push_char, push_chars, push_dec};
use vstd::string::StringSliceAdditionalSpecFns;
use vstd::utf8::{encode_utf8, is_ascii_chars, is_ascii_chars_encode_utf8};

pub mod palette;

verus! {

/// A terminal color.
///
/// `Reset` restores the terminal default (which also reads as
/// "transparent" because it shows the terminal background).
#[derive(Clone, Copy, Debug, PartialEq, Eq, Structural)]
pub enum Color {
    /// Terminal default.
    Reset,
    Black,
    Red,
    Green,
    Yellow,
    Blue,
    Magenta,
    Cyan,
    White,
    BrightBlack,
    BrightRed,
    BrightGreen,
    BrightYellow,
    BrightBlue,
    BrightMagenta,
    BrightCyan,
    BrightWhite,
    /// Raw 8-bit palette index (0..=255).
    Ansi(u8),
    /// Full 24-bit true color.
    Rgb(u8, u8, u8),
}

impl Default for Color {
    fn default() -> (c: Color)
        ensures
            c == Color::Reset,
    {
        Color::Reset
    }
}

/// How many colors the terminal can display. Used to auto-degrade
/// [`Color::Rgb`] so output still looks right on older terminals.
#[derive(Clone, Copy, Debug, PartialEq, Eq, Structural)]
pub enum ColorLevel {
    /// No color (e.g. `NO_COLOR` set).
    NoColor,
    /// 4-bit / 16 colors.
    Basic,
    /// 8-bit / 256 colors.
    Ansi256,
    /// 24-bit true color.
    Rgb,
}

impl ColorLevel {
    pub fn supports_truecolor(self) -> (b: bool)
        ensures
            b == (self == ColorLevel::Rgb),
    {
        self == ColorLevel::Rgb
    }

    pub fn supports_256(self) -> (b: bool)
        ensures
            b == (self == ColorLevel::Ansi256 || self == ColorLevel::Rgb),
    {
        match self {
            ColorLevel::Ansi256 | ColorLevel::Rgb => true,
            _ => false,
        }
    }
}

/// The six intensity steps of the xterm 6×6×6 color cube.
pub open spec fn cube_step(i: int) -> u8 {
    if i == 0 {
        0
    } else if i == 1 {
        95
    } else if i == 2 {
        135
    } else if i == 3 {
        175
    } else if i == 4 {
        215
    } else {
        255
    }
}

/// RGB of the 16 standard xterm palette entries.
pub open spec fn xterm_std(c: int) -> (u8, u8, u8) {
    if c == 0 {
        (0, 0, 0)
    } else if c == 1 {
        (128, 0, 0)
    } else if c == 2 {
        (0, 128, 0)
    } else if c == 3 {
        (128, 128, 0)
    } else if c == 4 {
        (0, 0, 128)
    } else if c == 5 {
        (128, 0, 128)
    } else if c == 6 {
        (0, 128, 128)
    } else if c == 7 {
        (192, 192, 192)
    } else if c == 8 {
        (128, 128, 128)
    } else if c == 9 {
        (255, 0, 0)
    } else if c == 10 {
        (0, 255, 0)
    } else if c == 11 {
        (255, 255, 0)
    } else if c == 12 {
        (0, 0, 255)
    } else if c == 13 {
        (255, 0, 255)
    } else if c == 14 {
        (0, 255, 255)
    } else {
        (255, 255, 255)
    }
}

/// The xterm 256-color palette: 16 standard colors, the 6×6×6 cube and a
/// 24-step grayscale ramp.
pub open spec fn ansi_rgb_spec(c: int) -> (u8, u8, u8) {
    if c < 16 {
        xterm_std(c)
    } else if c < 232 {
        let k = c - 16;
        (cube_step(k / 36), cube_step((k / 6) % 6), cube_step(k % 6))
    } else {
        let v = (8 + 10 * (c - 232)) as u8;
        (v, v, v)
    }
}

/// The 16 named colors in palette order.
pub open spec fn basic_color(k: int) -> Color {
    if k == 0 {
        Color::Black
    } else if k == 1 {
        Color::Red
    } else if k == 2 {
        Color::Green
    } else if k == 3 {
        Color::Yellow
    } else if k == 4 {
        Color::Blue
    } else if k == 5 {
        Color::Magenta
    } else if k == 6 {
        Color::Cyan
    } else if k == 7 {
        Color::White
    } else if k == 8 {
        Color::BrightBlack
    } else if k == 9 {
        Color::BrightRed
    } else if k == 10 {
        Color::BrightGreen
    } else if k == 11 {
        Color::BrightYellow
    } else if k == 12 {
        Color::BrightBlue
    } else if k == 13 {
        Color::BrightMagenta
    } else if k == 14 {
        Color::BrightCyan
    } else {
        Color::BrightWhite
    }
}

/// Squared euclidean distance between two RGB triples.
pub open spec fn dist2_spec(a: (u8, u8, u8), b: (u8, u8, u8)) -> int {
    let dr = a.0 - b.0;
    let dg = a.1 - b.1;
    let db = a.2 - b.2;
    dr * dr + dg * dg + db * db
}

/// `k` is the first palette index whose color is nearest to `rgb`.
pub open spec fn first_nearest_ansi(rgb: (u8, u8, u8), k: int) -> bool {
    &&& 0 <= k < 256
    &&& forall|j: int|
        0 <= j < 256 ==> dist2_spec(rgb, ansi_rgb_spec(k)) <= #[trigger] dist2_spec(
            rgb,
            ansi_rgb_spec(j),
        )
    &&& forall|j: int|
        0 <= j < k ==> dist2_spec(rgb, ansi_rgb_spec(k)) < #[trigger] dist2_spec(
            rgb,
            ansi_rgb_spec(j),
        )
}

/// `k` is the first of the 16 named colors nearest to `rgb`.
pub open spec fn first_nearest_basic(rgb: (u8, u8, u8), k: int) -> bool {
    &&& 0 <= k < 16
    &&& forall|j: int|
        0 <= j < 16 ==> dist2_spec(rgb, basic_color(k).rgb_spec()) <= #[trigger] dist2_spec(
            rgb,
            basic_color(j).rgb_spec(),
        )
    &&& forall|j: int|
        0 <= j < k ==> dist2_spec(rgb, basic_color(k).rgb_spec()) < #[trigger] dist2_spec(
            rgb,
            basic_color(j).rgb_spec(),
        )
}

/// The palette index nearest to `rgb` (the first one on ties).
pub open spec fn nearest_ansi_spec(rgb: (u8, u8, u8)) -> u8 {
    (choose|k: int| first_nearest_ansi(rgb, k)) as u8
}

/// The named color nearest to `rgb` (the first one on ties).
pub open spec fn nearest_basic_spec(rgb: (u8, u8, u8)) -> Color {
    basic_color(choose|k: int| first_nearest_basic(rgb, k))
}

/// SGR number of a named foreground color (`39` for `Reset`).
pub open spec fn fg_number(c: Color) -> nat {
    match c {
        Color::Reset => 39,
        Color::Black => 30,
        Color::Red => 31,
        Color::Green => 32,
        Color::Yellow => 33,
        Color::Blue => 34,
        Color::Magenta => 35,
        Color::Cyan => 36,
        Color::White => 37,
        Color::BrightBlack => 90,
        Color::BrightRed => 91,
        Color::BrightGreen => 92,
        Color::BrightYellow => 93,
        Color::BrightBlue => 94,
        Color::BrightMagenta => 95,
        Color::BrightCyan => 96,
        Color::BrightWhite => 97,
        _ => 0,
    }
}

/// The SGR parameters selecting `c` as foreground (`bg == false`) or background.
pub open spec fn color_code(c: Color, bg: bool) -> Seq<char> {
    let lead = if bg {
        '4'
    } else {
        '3'
    };
    match c {
        Color::Ansi(x) => seq![lead, '8', ';', '5', ';'] + dec(x as nat),
        Color::Rgb(r, g, b) => seq![lead, '8', ';', '2', ';'] + dec(r as nat) + seq![';'] + dec(
            g as nat,
        ) + seq![';'] + dec(b as nat),
        _ => dec(
            fg_number(c) + if bg {
                10nat
            } else {
                0nat
            },
        ),
    }
}

impl Color {
    /// The 24-bit RGB triple this color stands for.
    pub open spec fn rgb_spec(self) -> (u8, u8, u8) {
        match self {
            Color::Reset => (0, 0, 0),
            Color::Black => (0, 0, 0),
            Color::Red => (204, 0, 0),
            Color::Green => (0, 175, 0),
            Color::Yellow => (204, 204, 0),
            Color::Blue => (0, 0, 204),
            Color::Magenta => (204, 0, 204),
            Color::Cyan => (0, 175, 175),
            Color::White => (187, 187, 187),
            Color::BrightBlack => (85, 85, 85),
            Color::BrightRed => (255, 85, 85),
            Color::BrightGreen => (0, 255, 0),
            Color::BrightYellow => (255, 255, 85),
            Color::BrightBlue => (85, 85, 255),
            Color::BrightMagenta => (255, 85, 255),
            Color::BrightCyan => (85, 255, 255),
            Color::BrightWhite => (255, 255, 255),
            Color::Ansi(c) => ansi_rgb_spec(c as int),
            Color::Rgb(r, g, b) => (r, g, b),
        }
    }

    /// What `self` becomes on a terminal that can show `level` colors.
    pub open spec fn degrade_spec(self, level: ColorLevel) -> Color {
        match level {
            ColorLevel::Rgb => self,
            ColorLevel::NoColor => Color::Reset,
            ColorLevel::Ansi256 => match self {
                Color::Rgb(r, g, b) => Color::Ansi(nearest_ansi_spec((r, g, b))),
                other => other,
            },
            ColorLevel::Basic => match self {
                Color::Rgb(r, g, b) => nearest_basic_spec((r, g, b)),
                Color::Ansi(c) => basic_color(
                    if c <= 15 {
                        c as int
                    } else {
                        15
                    },
                ),
                other => other,
            },
        }
    }

    /// Downgrade this color to what `level` can display (auto-degradation).
    pub fn degrade(self, level: ColorLevel) -> (c: Color)
        ensures
            c == self.degrade_spec(level),
    {
        match level {
            ColorLevel::Rgb => self,
            ColorLevel::NoColor => Color::Reset,
            ColorLevel::Ansi256 => match self {
                Color::Rgb(r, g, b) => Color::Ansi(nearest_ansi(r, g, b)),
                Color::Ansi(c) => Color::Ansi(c),
                other => other,
            },
            ColorLevel::Basic => match self {
                Color::Rgb(r, g, b) => nearest_basic(r, g, b),
                Color::Ansi(c) => ansi_to_basic(c),
                other => other,
            },
        }
    }

    /// Build a true-color from components.
    pub fn rgb(r: u8, g: u8, b: u8) -> (c: Color)
        ensures
            c == Color::Rgb(r, g, b),
    {
        Color::Rgb(r, g, b)
    }

    /// Convert any color to its 24-bit RGB triple.
    pub fn to_rgb(self) -> (t: (u8, u8, u8))
        ensures
            t == self.rgb_spec(),
    {
        match self {
            Color::Reset => (0, 0, 0),
            Color::Black => (0, 0, 0),
            Color::Red => (204, 0, 0),
            Color::Green => (0, 175, 0),
            Color::Yellow => (204, 204, 0),
            Color::Blue => (0, 0, 204),
            Color::Magenta => (204, 0, 204),
            Color::Cyan => (0, 175, 175),
            Color::White => (187, 187, 187),
            Color::BrightBlack => (85, 85, 85),
            Color::BrightRed => (255, 85, 85),
            Color::BrightGreen => (0, 255, 0),
            Color::BrightYellow => (255, 255, 85),
            Color::BrightBlue => (85, 85, 255),
            Color::BrightMagenta => (255, 85, 255),
            Color::BrightCyan => (85, 255, 255),
            Color::BrightWhite => (255, 255, 255),
            Color::Ansi(c) => ansi_rgb(c),
            Color::Rgb(r, g, b) => (r, g, b),
        }
    }

    /// SGR foreground parameters (`38;...`), appended to `out`.
    pub(crate) fn fg_code(&self, out: &mut String)
        ensures
            final(out)@ == old(out)@ + color_code(*self, false),
    {
        self.push_code(out, false)
    }

    /// SGR background parameters (`48;...`), appended to `out`.
    pub(crate) fn bg_code(&self, out: &mut String)
        ensures
            final(out)@ == old(out)@ + color_code(*self, true),
    {
        self.push_code(out, true)
    }

    fn push_code(&self, out: &mut String, bg: bool)
        ensures
            final(out)@ == old(out)@ + color_code(*self, bg),
    {
        let lead = if bg {
            '4'
        } else {
            '3'
        };
        let shift: u32 = if bg {
            10
        } else {
            0
        };
        match *self {
            Color::Ansi(c) => {
                push_chars(out, &[lead, '8', ';', '5', ';']);
                push_dec(out, c as u32);
                assert(out@ =~= old(out)@ + color_code(*self, bg));
            },
            Color::Rgb(r, g, b) => {
                push_chars(out, &[lead, '8', ';', '2', ';']);
                push_dec(out, r as u32);
                push_chars(out, &[';']);
                push_dec(out, g as u32);
                push_chars(out, &[';']);
                push_dec(out, b as u32);
                assert(out@ =~= old(out)@ + color_code(*self, bg));
            },
            other => {
                let num: u32 = match other {
                    Color::Reset => 39,
                    Color::Black => 30,
                    Color::Red => 31,
                    Color::Green => 32,
                    Color::Yellow => 33,
                    Color::Blue => 34,
                    Color::Magenta => 35,
                    Color::Cyan => 36,
                    Color::White => 37,
                    Color::BrightBlack => 90,
                    Color::BrightRed => 91,
                    Color::BrightGreen => 92,
                    Color::BrightYellow => 93,
                    Color::BrightBlue => 94,
                    Color::BrightMagenta => 95,
                    Color::BrightCyan => 96,
                    _ => 97,
                };
                push_dec(out, num + shift);
            },
        }
    }
}

/// RGB of palette entry `c` of the xterm 256-color palette.
pub fn ansi_rgb(c: u8) -> (t: (u8, u8, u8))
    ensures
        t == ansi_rgb_spec(c as int),
{
    if c < 16 {
        match c {
            0 => (0, 0, 0),
            1 => (128, 0, 0),
            2 => (0, 128, 0),
            3 => (128, 128, 0),
            4 => (0, 0, 128),
            5 => (128, 0, 128),
            6 => (0, 128, 128),
            7 => (192, 192, 192),
            8 => (128, 128, 128),
            9 => (255, 0, 0),
            10 => (0, 255, 0),
            11 => (255, 255, 0),
            12 => (0, 0, 255),
            13 => (255, 0, 255),
            14 => (0, 255, 255),
            _ => (255, 255, 255),
        }
    } else if c < 232 {
        let k = c - 16;
        (cube(k / 36), cube((k / 6) % 6), cube(k % 6))
    } else {
        let v = 8 + 10 * (c - 232);
        (v, v, v)
    }
}

fn cube(i: u8) -> (v: u8)
    ensures
        v == cube_step(i as int),
{
    match i {
        0 => 0,
        1 => 95,
        2 => 135,
        3 => 175,
        4 => 215,
        _ => 255,
    }
}

/// The named color at palette position `k`.
fn basic_at(k: usize) -> (c: Color)
    ensures
        c == basic_color(k as int),
{
    match k {
        0 => Color::Black,
        1 => Color::Red,
        2 => Color::Green,
        3 => Color::Yellow,
        4 => Color::Blue,
        5 => Color::Magenta,
        6 => Color::Cyan,
        7 => Color::White,
        8 => Color::BrightBlack,
        9 => Color::BrightRed,
        10 => Color::BrightGreen,
        11 => Color::BrightYellow,
        12 => Color::BrightBlue,
        13 => Color::BrightMagenta,
        14 => Color::BrightCyan,
        _ => Color::BrightWhite,
    }
}

/// Squared euclidean distance between two RGB triples.
fn dist2(a: (u8, u8, u8), b: (u8, u8, u8)) -> (d: u32)
    ensures
        d == dist2_spec(a, b),
        d < 200_000,
{
    let dr = a.0 as i32 - b.0 as i32;
    let dg = a.1 as i32 - b.1 as i32;
    let db = a.2 as i32 - b.2 as i32;
    proof {
        assert(0 <= dr * dr <= 65025) by (nonlinear_arith)
            requires -255 <= dr <= 255;
        assert(0 <= dg * dg <= 65025) by (nonlinear_arith)
            requires -255 <= dg <= 255;
        assert(0 <= db * db <= 65025) by (nonlinear_arith)
            requires -255 <= db <= 255;
    }
    (dr * dr + dg * dg + db * db) as u32
}

proof fn lemma_first_nearest_ansi_unique(rgb: (u8, u8, u8), k: int)
    requires
        first_nearest_ansi(rgb, k),
    ensures
        nearest_ansi_spec(rgb) == k,
{
    let c = choose|k: int| first_nearest_ansi(rgb, k);
    assert(first_nearest_ansi(rgb, c));
    if c < k {
        assert(dist2_spec(rgb, ansi_rgb_spec(k)) < dist2_spec(rgb, ansi_rgb_spec(c)));
    } else if k < c {
        assert(dist2_spec(rgb, ansi_rgb_spec(c)) < dist2_spec(rgb, ansi_rgb_spec(k)));
    }
}

proof fn lemma_first_nearest_basic_unique(rgb: (u8, u8, u8), k: int)
    requires
        first_nearest_basic(rgb, k),
    ensures
        nearest_basic_spec(rgb) == basic_color(k),
{
    let c = choose|k: int| first_nearest_basic(rgb, k);
    assert(first_nearest_basic(rgb, c));
    if c < k {
        assert(dist2_spec(rgb, basic_color(k).rgb_spec()) < dist2_spec(
            rgb,
            basic_color(c).rgb_spec(),
        ));
    } else if k < c {
        assert(dist2_spec(rgb, basic_color(c).rgb_spec()) < dist2_spec(
            rgb,
            basic_color(k).rgb_spec(),
        ));
    }
}

/// The palette index nearest to `(r, g, b)`; the first one on ties.
fn nearest_ansi(r: u8, g: u8, b: u8) -> (k: u8)
    ensures
        first_nearest_ansi((r, g, b), k as int),
        k == nearest_ansi_spec((r, g, b)),
{
    let rgb = (r, g, b);
    let mut best: u8 = 0;
    let mut best_d: u32 = u32::MAX;
    let mut i: u32 = 0;
    while i < 256
        invariant
            i <= 256,
            i == 0 ==> best_d == u32::MAX && best == 0,
            i > 0 ==> best < i && best_d == dist2_spec(rgb, ansi_rgb_spec(best as int)),
            forall|j: int|
                0 <= j < i ==> dist2_spec(rgb, ansi_rgb_spec(best as int)) <= #[trigger] dist2_spec(
                    rgb,
                    ansi_rgb_spec(j),
                ),
            forall|j: int|
                0 <= j < best ==> dist2_spec(rgb, ansi_rgb_spec(best as int)) < #[trigger] dist2_spec(
                    rgb,
                    ansi_rgb_spec(j),
                ),
        decreases 256 - i,
    {
        let d = dist2(rgb, ansi_rgb(i as u8));
        if d < best_d {
            best_d = d;
            best = i as u8;
        }
        i = i + 1;
    }
    proof {
        lemma_first_nearest_ansi_unique(rgb, best as int);
    }
    best
}

/// Index of the named color nearest to `(r, g, b)`; the first one on ties.
fn nearest_basic_index(r: u8, g: u8, b: u8) -> (k: usize)
    ensures
        first_nearest_basic((r, g, b), k as int),
{
    let rgb = (r, g, b);
    let mut best: usize = 0;
    let mut best_d: u32 = u32::MAX;
    let mut i: usize = 0;
    while i < 16
        invariant
            i <= 16,
            i == 0 ==> best_d == u32::MAX && best == 0,
            i > 0 ==> best < i && best_d == dist2_spec(rgb, basic_color(best as int).rgb_spec()),
            forall|j: int|
                0 <= j < i ==> dist2_spec(rgb, basic_color(best as int).rgb_spec())
                    <= #[trigger] dist2_spec(rgb, basic_color(j).rgb_spec()),
            forall|j: int|
                0 <= j < best ==> dist2_spec(rgb, basic_color(best as int).rgb_spec())
                    < #[trigger] dist2_spec(rgb, basic_color(j).rgb_spec()),
        decreases 16 - i,
    {
        let d = dist2(rgb, basic_at(i).to_rgb());
        if d < best_d {
            best_d = d;
            best = i;
        }
        i = i + 1;
    }
    best
}

/// The named color nearest to `(r, g, b)`; the first one on ties.
fn nearest_basic(r: u8, g: u8, b: u8) -> (c: Color)
    ensures
        c == nearest_basic_spec((r, g, b)),
{
    let k = nearest_basic_index(r, g, b);
    proof {
        lemma_first_nearest_basic_unique((r, g, b), k as int);
    }
    basic_at(k)
}

/// The named color a palette index maps to (indices above 15 clamp to 15).
fn ansi_to_basic(c: u8) -> (col: Color)
    ensures
        col == basic_color(
            if c <= 15 {
                c as int
            } else {
                15
            },
        ),
{
    basic_at(if c <= 15 {
        c as usize
    } else {
        15
    })
}


/// `bs` without its leading `#` bytes.
pub open spec fn strip_hash(bs: Seq<u8>) -> Seq<u8>
    decreases bs.len(),
{
    if bs.len() > 0 && bs[0] == 0x23 {
        strip_hash(bs.drop_first())
    } else {
        bs
    }
}

/// Value of an ASCII hexadecimal digit, or -1.
pub open spec fn hex_digit_value(b: u8) -> int {
    if 0x30 <= b <= 0x39 {
        b - 0x30
    } else if 0x61 <= b <= 0x66 {
        b - 0x61 + 10
    } else if 0x41 <= b <= 0x46 {
        b - 0x41 + 10
    } else {
        -1
    }
}

/// Base-16 value of a run of hexadecimal digits.
pub open spec fn hex_value(ds: Seq<u8>) -> int
    decreases ds.len(),
{
    if ds.len() == 0 {
        0
    } else {
        hex_value(ds.drop_last()) * 16 + hex_digit_value(ds.last())
    }
}

/// `field` without one leading `+`.
pub open spec fn unsigned_digits(field: Seq<u8>) -> Seq<u8> {
    if field.len() > 0 && field[0] == 0x2b {
        field.drop_first()
    } else {
        field
    }
}

pub open spec fn hex_digits_only(ds: Seq<u8>) -> bool {
    forall|i: int| 0 <= i < ds.len() ==> hex_digit_value(#[trigger] ds[i]) >= 0
}

/// `u8::from_str_radix(field, 16)`: an optional `+`, then at least one
/// hexadecimal digit, the value fitting in a `u8`.
pub open spec fn parse_hex_u8(field: Seq<u8>) -> Option<int> {
    let ds = unsigned_digits(field);
    if ds.len() == 0 || !hex_digits_only(ds) {
        None
    } else if hex_value(ds) > 255 {
        None
    } else {
        Some(hex_value(ds))
    }
}

/// A channel of a `#rrggbb` color: an unparsable field reads as 0.
pub open spec fn hex_channel(field: Seq<u8>) -> u8 {
    match parse_hex_u8(field) {
        Some(v) => v as u8,
        None => 0,
    }
}

/// A channel of a `#rgb` color: the digit repeated (`v * 17`); unparsable reads as 0.
pub open spec fn short_hex_channel(field: Seq<u8>) -> u8 {
    match parse_hex_u8(field) {
        Some(v) => (v * 17) as u8,
        None => 0,
    }
}

pub open spec fn is_continuation(b: u8) -> bool {
    0x80 <= b < 0xc0
}

/// The `#rgb` / `#rrggbb` fields of `t` start on character boundaries.
pub open spec fn hex_fields_on_boundaries(t: Seq<u8>) -> bool {
    &&& t.len() == 3 ==> !is_continuation(t[1]) && !is_continuation(t[2])
    &&& t.len() == 6 ==> !is_continuation(t[2]) && !is_continuation(t[4])
}

/// The color `#rrggbb` or `#rgb` names (any number of leading `#`), or
/// `Reset` for any other length.
pub open spec fn hex_spec(bytes: Seq<u8>) -> Color {
    let t = strip_hash(bytes);
    if t.len() == 3 {
        Color::Rgb(
            short_hex_channel(t.subrange(0, 1)),
            short_hex_channel(t.subrange(1, 2)),
            short_hex_channel(t.subrange(2, 3)),
        )
    } else if t.len() == 6 {
        Color::Rgb(
            hex_channel(t.subrange(0, 2)),
            hex_channel(t.subrange(2, 4)),
            hex_channel(t.subrange(4, 6)),
        )
    } else {
        Color::Reset
    }
}

proof fn lemma_hex_value_bound(ds: Seq<u8>)
    requires
        forall|i: int| 0 <= i < ds.len() ==> hex_digit_value(#[trigger] ds[i]) >= 0,
    ensures
        0 <= hex_value(ds),
        ds.len() <= 2 ==> hex_value(ds) <= 255,
        ds.len() <= 1 ==> hex_value(ds) <= 15,
    decreases ds.len(),
{
    if ds.len() > 0 {
        let p = ds.drop_last();
        assert forall|i: int| 0 <= i < p.len() implies hex_digit_value(#[trigger] p[i]) >= 0 by {
            assert(p[i] == ds[i]);
        }
        lemma_hex_value_bound(p);
        assert(hex_digit_value(ds[ds.len() - 1]) >= 0);
    }
}

/// `u8::from_str_radix(&bytes[from..to], 16)` for a field of one or two bytes.
fn parse_hex_field(bytes: &[u8], from: usize, to: usize) -> (r: Option<u8>)
    requires
        from < to <= bytes.len(),
        to - from <= 2,
    ensures
        r == match parse_hex_u8(bytes@.subrange(from as int, to as int)) {
            Some(v) => Some(v as u8),
            None => None::<u8>,
        },
        to - from == 1 && r is Some ==> r.unwrap() <= 15,
        parse_hex_u8(bytes@.subrange(from as int, to as int)) matches Some(v) ==> 0 <= v <= 255,
{
    let ghost field = bytes@.subrange(from as int, to as int);
    let mut i = from;
    if bytes[from] == 0x2b {
        i = from + 1;
    }
    let ghost ds = bytes@.subrange(i as int, to as int);
    assert(ds == if field.len() > 0 && field[0] == 0x2b {
        field.drop_first()
    } else {
        field
    });
    if i == to {
        return None;
    }
    let start = i;
    let mut v: u32 = 0;
    while i < to
        invariant
            start <= i <= to <= bytes.len(),
            to - start <= 2,
            ds == bytes@.subrange(start as int, to as int),
            field == bytes@.subrange(from as int, to as int),
            ds == if field.len() > 0 && field[0] == 0x2b {
                field.drop_first()
            } else {
                field
            },
            forall|k: int| start <= k < i ==> hex_digit_value(#[trigger] bytes@[k]) >= 0,
            v == hex_value(bytes@.subrange(start as int, i as int)),
            v <= 255,
            to - start <= 1 ==> v <= 15,
        decreases to - i,
    {
        let b = bytes[i];
        let d: u32 = if 0x30 <= b && b <= 0x39 {
            (b - 0x30) as u32
        } else if 0x61 <= b && b <= 0x66 {
            (b - 0x61 + 10) as u32
        } else if 0x41 <= b && b <= 0x46 {
            (b - 0x41 + 10) as u32
        } else {
            assert(ds[i - start] == b);
            assert(hex_digit_value(ds[i - start]) < 0);
            return None;
        };
        let ghost pre = bytes@.subrange(start as int, i as int);
        assert(bytes@.subrange(start as int, i + 1).drop_last() == pre);
        proof {
            let next = bytes@.subrange(start as int, i + 1);
            assert forall|k: int| 0 <= k < next.len() implies hex_digit_value(#[trigger] next[k]) >= 0 by {
                assert(next[k] == bytes@[start + k]);
            }
            lemma_hex_value_bound(next);
        }
        v = v * 16 + d;
        i = i + 1;
    }
    assert forall|k: int| 0 <= k < ds.len() implies hex_digit_value(#[trigger] ds[k]) >= 0 by {
        assert(ds[k] == bytes@[start + k]);
    }
    proof {
        lemma_hex_value_bound(ds);
    }
    Some(v as u8)
}

fn short_channel(bytes: &[u8], from: usize) -> (c: u8)
    requires
        from < bytes.len(),
    ensures
        c == short_hex_channel(bytes@.subrange(from as int, from + 1)),
{
    match parse_hex_field(bytes, from, from + 1) {
        Some(v) => v * 17,
        None => 0,
    }
}

fn channel(bytes: &[u8], from: usize) -> (c: u8)
    requires
        from + 2 <= bytes.len(),
    ensures
        c == hex_channel(bytes@.subrange(from as int, from + 2)),
{
    match parse_hex_field(bytes, from, from + 2) {
        Some(v) => v,
        None => 0,
    }
}

impl Color {
    /// Parse `#rrggbb` or `#rgb` (leading `#`s are optional); any other
    /// length gives `Reset`, and a field that is not hexadecimal reads as 0.
    pub fn hex(s: &str) -> (c: Color)
        requires
            hex_fields_on_boundaries(strip_hash(s.spec_bytes())),
        ensures
            c == hex_spec(s.spec_bytes()),
    {
        let bytes = s.as_bytes();
        let ghost bs = bytes@;
        let mut start: usize = 0;
        assert(bs.subrange(0, bs.len() as int) == bs);
        while start < bytes.len() && bytes[start] == 0x23
            invariant
                start <= bytes.len(),
                bs == bytes@,
                strip_hash(bs) == strip_hash(bs.subrange(start as int, bs.len() as int)),
            decreases bytes.len() - start,
        {
            assert(bs.subrange(start as int, bs.len() as int).drop_first() == bs.subrange(
                start + 1,
                bs.len() as int,
            ));
            start = start + 1;
        }
        let ghost t = bs.subrange(start as int, bs.len() as int);
        assert(strip_hash(bs) == t);
        let len = bytes.len() - start;
        if len == 3 {
            assert(t.subrange(0, 1) == bs.subrange(start as int, start + 1));
            assert(t.subrange(1, 2) == bs.subrange(start + 1, start + 2));
            assert(t.subrange(2, 3) == bs.subrange(start + 2, start + 3));
            let r = short_channel(bytes, start);
            let g = short_channel(bytes, start + 1);
            let b = short_channel(bytes, start + 2);
            assert(r == short_hex_channel(t.subrange(0, 1)));
            assert(g == short_hex_channel(t.subrange(1, 2)));
            assert(b == short_hex_channel(t.subrange(2, 3)));
            Color::Rgb(r, g, b)
        } else if len == 6 {
            assert(t.subrange(0, 2) == bs.subrange(start as int, start + 2));
            assert(t.subrange(2, 4) == bs.subrange(start + 2, start + 4));
            assert(t.subrange(4, 6) == bs.subrange(start + 4, start + 6));
            let r = channel(bytes, start);
            let g = channel(bytes, start + 2);
            let b = channel(bytes, start + 4);
            assert(r == hex_channel(t.subrange(0, 2)));
            assert(g == hex_channel(t.subrange(2, 4)));
            assert(b == hex_channel(t.subrange(4, 6)));
            Color::Rgb(r, g, b)
        } else {
            Color::Reset
        }
    }
}


/// The lowercase hexadecimal digit for `d` (`0 <= d < 16`).
pub open spec fn hex_digit_spec(d: int) -> char {
    if d < 10 {
        (48 + d) as char
    } else {
        (87 + d) as char
    }
}

/// `n` (below 256) as two lowercase hexadecimal digits.
pub open spec fn hex2(n: int) -> Seq<char> {
    seq![hex_digit_spec(n / 16), hex_digit_spec(n % 16)]
}

/// How a color is written for people: `default` for the terminal default,
/// `#rrggbb` (lowercase) for a true color, `ansiN` for a palette index, and
/// the variant's own name for a named color.
pub open spec fn color_text(c: Color) -> Seq<char> {
    match c {
        Color::Reset => "default"@,
        Color::Black => "Black"@,
        Color::Red => "Red"@,
        Color::Green => "Green"@,
        Color::Yellow => "Yellow"@,
        Color::Blue => "Blue"@,
        Color::Magenta => "Magenta"@,
        Color::Cyan => "Cyan"@,
        Color::White => "White"@,
        Color::BrightBlack => "BrightBlack"@,
        Color::BrightRed => "BrightRed"@,
        Color::BrightGreen => "BrightGreen"@,
        Color::BrightYellow => "BrightYellow"@,
        Color::BrightBlue => "BrightBlue"@,
        Color::BrightMagenta => "BrightMagenta"@,
        Color::BrightCyan => "BrightCyan"@,
        Color::BrightWhite => "BrightWhite"@,
        Color::Ansi(n) => "ansi"@ + dec(n as nat),
        Color::Rgb(r, g, b) => seq!['#'] + hex2(r as int) + hex2(g as int) + hex2(b as int),
    }
}

fn hex_digit(d: u8) -> (c: char)
    requires
        d < 16,
    ensures
        c == hex_digit_spec(d as int),
{
    match d {
        0 => '0',
        1 => '1',
        2 => '2',
        3 => '3',
        4 => '4',
        5 => '5',
        6 => '6',
        7 => '7',
        8 => '8',
        9 => '9',
        10 => 'a',
        11 => 'b',
        12 => 'c',
        13 => 'd',
        14 => 'e',
        _ => 'f',
    }
}

fn push_hex2(out: &mut String, n: u8)
    ensures
        final(out)@ == old(out)@ + hex2(n as int),
{
    push_char(out, hex_digit(n / 16));
    push_char(out, hex_digit(n % 16));
    assert(final(out)@ =~= old(out)@ + hex2(n as int));
}

impl Color {
    /// The color written for people (see [`color_text`]).
    pub fn to_string(&self) -> (s: String)
        ensures
            s@ == color_text(*self),
    {
        match *self {
            Color::Reset => "default".to_string(),
            Color::Black => "Black".to_string(),
            Color::Red => "Red".to_string(),
            Color::Green => "Green".to_string(),
            Color::Yellow => "Yellow".to_string(),
            Color::Blue => "Blue".to_string(),
            Color::Magenta => "Magenta".to_string(),
            Color::Cyan => "Cyan".to_string(),
            Color::White => "White".to_string(),
            Color::BrightBlack => "BrightBlack".to_string(),
            Color::BrightRed => "BrightRed".to_string(),
            Color::BrightGreen => "BrightGreen".to_string(),
            Color::BrightYellow => "BrightYellow".to_string(),
            Color::BrightBlue => "BrightBlue".to_string(),
            Color::BrightMagenta => "BrightMagenta".to_string(),
            Color::BrightCyan => "BrightCyan".to_string(),
            Color::BrightWhite => "BrightWhite".to_string(),
            Color::Ansi(n) => {
                let mut s = "ansi".to_string();
                push_dec(&mut s, n as u32);
                s
            },
            Color::Rgb(r, g, b) => {
                let mut s = String::new();
                push_char(&mut s, '#');
                push_hex2(&mut s, r);
                push_hex2(&mut s, g);
                push_hex2(&mut s, b);
                assert(s@ =~= seq!['#'] + hex2(r as int) + hex2(g as int) + hex2(b as int));
                s
            },
        }
    }
}

/// Degrading twice to the same level changes nothing more.
pub proof fn law_degrade_idempotent(c: Color, level: ColorLevel)
    ensures
        c.degrade_spec(level).degrade_spec(level) == c.degrade_spec(level),
{
}

/// A degraded color is one the level can show: nothing at all for
/// `NoColor`, only the 16 named colors for `Basic`, no true color for
/// `Ansi256`, and the color itself for `Rgb`.
pub proof fn law_degrade_fits_level(c: Color, level: ColorLevel)
    ensures
        level == ColorLevel::NoColor ==> c.degrade_spec(level) == Color::Reset,
        level == ColorLevel::Basic ==> !(c.degrade_spec(level) is Rgb) && !(c.degrade_spec(
            level,
        ) is Ansi),
        level == ColorLevel::Ansi256 ==> !(c.degrade_spec(level) is Rgb),
        level == ColorLevel::Rgb ==> c.degrade_spec(level) == c,
{
}

/// The first palette index nearest to `rgb` among the first `i`.
proof fn first_nearest_ansi_upto(rgb: (u8, u8, u8), i: int) -> (k: int)
    requires
        1 <= i <= 256,
    ensures
        0 <= k < i,
        forall|j: int|
            0 <= j < i ==> dist2_spec(rgb, ansi_rgb_spec(k)) <= #[trigger] dist2_spec(
                rgb,
                ansi_rgb_spec(j),
            ),
        forall|j: int|
            0 <= j < k ==> dist2_spec(rgb, ansi_rgb_spec(k)) < #[trigger] dist2_spec(
                rgb,
                ansi_rgb_spec(j),
            ),
    decreases i,
{
    if i == 1 {
        0
    } else {
        let b = first_nearest_ansi_upto(rgb, i - 1);
        if dist2_spec(rgb, ansi_rgb_spec(i - 1)) < dist2_spec(rgb, ansi_rgb_spec(b)) {
            i - 1
        } else {
            b
        }
    }
}

/// The first named color nearest to `rgb` among the first `i`.
proof fn first_nearest_basic_upto(rgb: (u8, u8, u8), i: int) -> (k: int)
    requires
        1 <= i <= 16,
    ensures
        0 <= k < i,
        forall|j: int|
            0 <= j < i ==> dist2_spec(rgb, basic_color(k).rgb_spec()) <= #[trigger] dist2_spec(
                rgb,
                basic_color(j).rgb_spec(),
            ),
        forall|j: int|
            0 <= j < k ==> dist2_spec(rgb, basic_color(k).rgb_spec()) < #[trigger] dist2_spec(
                rgb,
                basic_color(j).rgb_spec(),
            ),
    decreases i,
{
    if i == 1 {
        0
    } else {
        let b = first_nearest_basic_upto(rgb, i - 1);
        if dist2_spec(rgb, basic_color(i - 1).rgb_spec()) < dist2_spec(
            rgb,
            basic_color(b).rgb_spec(),
        ) {
            i - 1
        } else {
            b
        }
    }
}

proof fn lemma_dist2_zero(a: (u8, u8, u8), b: (u8, u8, u8))
    ensures
        dist2_spec(a, b) >= 0,
        dist2_spec(a, b) == 0 <==> a == b,
{
    let (dr, dg, db) = (a.0 - b.0, a.1 - b.1, a.2 - b.2);
    assert(dr * dr >= 0 && dg * dg >= 0 && db * db >= 0) by (nonlinear_arith);
    assert(dr * dr == 0 ==> dr == 0) by (nonlinear_arith);
    assert(dg * dg == 0 ==> dg == 0) by (nonlinear_arith);
    assert(db * db == 0 ==> db == 0) by (nonlinear_arith);
    if a == b {
        assert(dr == 0 && dg == 0 && db == 0);
        assert(dr * dr + dg * dg + db * db == 0) by (nonlinear_arith)
            requires dr == 0, dg == 0, db == 0;
    }
    if dist2_spec(a, b) == 0 {
        assert(a.0 == b.0 && a.1 == b.1 && a.2 == b.2);
        assert(a == (b.0, b.1, b.2));
    }
}

/// A true color that is exactly a palette entry keeps its RGB value when
/// degraded to 256 colors; one that is exactly a named color keeps it when
/// degraded to 16 colors.
pub proof fn law_degrade_keeps_palette_colors(k: u8, j: int)
    requires
        0 <= j < 16,
    ensures
        ({
            let t = ansi_rgb_spec(k as int);
            Color::Rgb(t.0, t.1, t.2).degrade_spec(ColorLevel::Ansi256).rgb_spec() == t
        }),
        ({
            let t = basic_color(j).rgb_spec();
            Color::Rgb(t.0, t.1, t.2).degrade_spec(ColorLevel::Basic).rgb_spec() == t
        }),
{
    let t = ansi_rgb_spec(k as int);
    let n = first_nearest_ansi_upto(t, 256);
    lemma_first_nearest_ansi_unique(t, n);
    assert(dist2_spec(t, ansi_rgb_spec(n)) <= dist2_spec(t, ansi_rgb_spec(k as int)));
    lemma_dist2_zero(t, ansi_rgb_spec(k as int));
    lemma_dist2_zero(t, ansi_rgb_spec(n));
    assert(n as u8 as int == n);
    let u = basic_color(j).rgb_spec();
    let m = first_nearest_basic_upto(u, 16);
    lemma_first_nearest_basic_unique(u, m);
    assert(dist2_spec(u, basic_color(m).rgb_spec()) <= dist2_spec(u, basic_color(j).rgb_spec()));
    lemma_dist2_zero(u, basic_color(j).rgb_spec());
    lemma_dist2_zero(u, basic_color(m).rgb_spec());
}

proof fn lemma_hex_digit_round_trip(d: int)
    requires
        0 <= d < 16,
    ensures
        hex_digit_spec(d) as u8 as int == (if d < 10 { 48 + d } else { 87 + d }),
        hex_digit_value(hex_digit_spec(d) as u8) == d,
        '\0' <= hex_digit_spec(d) <= '\u{7f}',
{
}

proof fn lemma_hex2_channel(n: u8, t: Seq<u8>)
    requires
        t.len() == 2,
        t[0] == hex_digit_spec(n as int / 16) as u8,
        t[1] == hex_digit_spec(n as int % 16) as u8,
    ensures
        hex_channel(t) == n,
{
    lemma_hex_digit_round_trip(n as int / 16);
    lemma_hex_digit_round_trip(n as int % 16);
    assert(unsigned_digits(t) == t);
    assert(hex_digits_only(t));
    assert(t.drop_last().drop_last() =~= Seq::<u8>::empty());
    assert(t.drop_last().last() == t[0]);
    assert(hex_value(t.drop_last()) == hex_value(t.drop_last().drop_last()) * 16 + hex_digit_value(t[0]));
    assert(hex_value(t) == (n as int / 16) * 16 + n as int % 16);
}

/// Writing a true color out (as [`Color::to_string`] does) and parsing it
/// back with [`Color::hex`] gives the same color; the text meets what
/// `hex` asks of its argument.
pub proof fn law_hex_round_trip(r: u8, g: u8, b: u8)
    ensures
        hex_fields_on_boundaries(strip_hash(encode_utf8(color_text(Color::Rgb(r, g, b))))),
        hex_spec(encode_utf8(color_text(Color::Rgb(r, g, b)))) == Color::Rgb(r, g, b),
{
    let cs = color_text(Color::Rgb(r, g, b));
    lemma_hex_digit_round_trip(r as int / 16);
    lemma_hex_digit_round_trip(r as int % 16);
    lemma_hex_digit_round_trip(g as int / 16);
    lemma_hex_digit_round_trip(g as int % 16);
    lemma_hex_digit_round_trip(b as int / 16);
    lemma_hex_digit_round_trip(b as int % 16);
    assert(cs.len() == 7);
    assert(cs[0] == '#');
    assert(cs[1] == hex_digit_spec(r as int / 16) && cs[2] == hex_digit_spec(r as int % 16));
    assert(cs[3] == hex_digit_spec(g as int / 16) && cs[4] == hex_digit_spec(g as int % 16));
    assert(cs[5] == hex_digit_spec(b as int / 16) && cs[6] == hex_digit_spec(b as int % 16));
    assert(is_ascii_chars(cs));
    is_ascii_chars_encode_utf8(cs);
    let bs = encode_utf8(cs);
    assert(bs[0] == 0x23);
    let t = bs.drop_first();
    assert(t.len() == 6);
    assert(t[0] == bs[1]);
    assert(strip_hash(t) == t);
    assert(strip_hash(bs) == t);
    lemma_hex2_channel(r, t.subrange(0, 2));
    lemma_hex2_channel(g, t.subrange(2, 4));
    lemma_hex2_channel(b, t.subrange(4, 6));
}

/// The first sixteen palette entries are the sixteen named colors, in
/// palette order: degrading `Ansi(c)` (`c <= 15`) to 16 colors gives the
/// named color whose SGR foreground number is `30 + c` for `c < 8` and
/// `90 + (c - 8)` for the bright ones (so `Ansi(1)` is `Red` and `Ansi(9)`
/// is `BrightRed`); a higher index degrades to `BrightWhite`.
pub proof fn law_degrade_low_palette_to_named(c: u8)
    ensures
        c <= 15 ==> fg_number(Color::Ansi(c).degrade_spec(ColorLevel::Basic)) == (if c < 8 {
            30 + c
        } else {
            82 + c
        }),
        c <= 15 ==> color_code(Color::Ansi(c).degrade_spec(ColorLevel::Basic), false) == dec(
            (if c < 8 {
                30 + c
            } else {
                82 + c
            }) as nat,
        ),
        c > 15 ==> Color::Ansi(c).degrade_spec(ColorLevel::Basic) == Color::BrightWhite,
        Color::Ansi(1).degrade_spec(ColorLevel::Basic) == Color::Red,
        Color::Ansi(9).degrade_spec(ColorLevel::Basic) == Color::BrightRed,
{
}

/// Degrading a true color picks the closest color the level has, by
/// squared RGB distance: to 256 colors, a palette entry no farther than any
/// other entry; to 16 colors, a named color no farther than any other
/// named color.
pub proof fn law_degrade_is_nearest(r: u8, g: u8, b: u8)
    ensures
        ({
            let t = (r, g, b);
            let d = Color::Rgb(r, g, b).degrade_spec(ColorLevel::Ansi256);
            &&& d is Ansi
            &&& forall|j: int| 0 <= j < 256 ==> dist2_spec(t, d.rgb_spec()) <= #[trigger] dist2_spec(t, ansi_rgb_spec(j))
        }),
        ({
            let t = (r, g, b);
            let d = Color::Rgb(r, g, b).degrade_spec(ColorLevel::Basic);
            &&& exists|k: int| 0 <= k < 16 && d == #[trigger] basic_color(k)
            &&& forall|j: int| 0 <= j < 16 ==> dist2_spec(t, d.rgb_spec()) <= #[trigger] dist2_spec(t, basic_color(j).rgb_spec())
        }),
{
    let t = (r, g, b);
    let n = first_nearest_ansi_upto(t, 256);
    lemma_first_nearest_ansi_unique(t, n);
    assert(n as u8 as int == n);
    assert(Color::Ansi(n as u8).rgb_spec() == ansi_rgb_spec(n));
    let m = first_nearest_basic_upto(t, 16);
    lemma_first_nearest_basic_unique(t, m);
    assert(0 <= m < 16 && Color::Rgb(r, g, b).degrade_spec(ColorLevel::Basic) == basic_color(m));
}
} // verus!
