//! Border styles — thin, double, rounded, thick, ASCII, dashed, and
//! curved (arc) variants. Each set is just the glyphs that make a box.
use vstd::prelude::*;

verus! {

/// The glyphs that draw a border around a rectangle.
#[derive(Clone, Copy, Debug, PartialEq, Eq, Structural)]
pub struct BorderSet {
    pub top_left: char,
    pub top_right: char,
    pub bottom_left: char,
    pub bottom_right: char,
    pub horizontal: char,
    pub vertical: char,
    /// Glyph used for the rounded top corners (== top_left/right by default).
    pub top_left_curve: char,
    pub top_right_curve: char,
}

/// The set made of the six core glyphs, its top corners not curved.
pub open spec fn border_of(tl: char, tr: char, bl: char, br: char, h: char, v: char) -> BorderSet {
    BorderSet {
        top_left: tl,
        top_right: tr,
        bottom_left: bl,
        bottom_right: br,
        horizontal: h,
        vertical: v,
        top_left_curve: tl,
        top_right_curve: tr,
    }
}

impl BorderSet {
    /// Build a set from the 6 core glyphs (curved corners default to the top corners).
    pub fn new(tl: char, tr: char, bl: char, br: char, h: char, v: char) -> (b: BorderSet)
        ensures
            b == border_of(tl, tr, bl, br, h, v),
    {
        BorderSet {
            top_left: tl,
            top_right: tr,
            bottom_left: bl,
            bottom_right: br,
            horizontal: h,
            vertical: v,
            top_left_curve: tl,
            top_right_curve: tr,
        }
    }

    /// A set where the top corners use curved arcs.
    pub fn with_curves(self, tlc: char, trc: char) -> (b: BorderSet)
        ensures
            b == (BorderSet { top_left_curve: tlc, top_right_curve: trc, ..self }),
    {
        BorderSet { top_left_curve: tlc, top_right_curve: trc, ..self }
    }
}

/// Single-line border.
pub fn thin() -> (b: BorderSet)
    ensures
        b == border_of('┌', '┐', '└', '┘', '─', '│'),
{
    BorderSet::new('┌', '┐', '└', '┘', '─', '│')
}

/// Rounded (arc) border.
pub fn round() -> (b: BorderSet)
    ensures
        b == (BorderSet { top_left_curve: '╭', top_right_curve: '╮', ..border_of('┌', '┐', '└', '┘', '─', '│') }),
{
    BorderSet::new('┌', '┐', '└', '┘', '─', '│').with_curves('╭', '╮')
}

/// Double-line border.
pub fn double() -> (b: BorderSet)
    ensures
        b == border_of('╔', '╗', '╚', '╝', '═', '║'),
{
    BorderSet::new('╔', '╗', '╚', '╝', '═', '║')
}

/// Thick border.
pub fn thick() -> (b: BorderSet)
    ensures
        b == border_of('┏', '┓', '┗', '┛', '━', '┃'),
{
    BorderSet::new('┏', '┓', '┗', '┛', '━', '┃')
}

/// Block / full block border.
pub fn block() -> (b: BorderSet)
    ensures
        b == border_of('█', '█', '█', '█', '█', '█'),
{
    BorderSet::new('█', '█', '█', '█', '█', '█')
}

/// Dashed border (uses box-light dashes).
pub fn dashed() -> (b: BorderSet)
    ensures
        b == border_of('┌', '┐', '└', '┘', '╌', '╎'),
{
    BorderSet::new('┌', '┐', '└', '┘', '╌', '╎')
}

/// Dotted border.
pub fn dotted() -> (b: BorderSet)
    ensures
        b == border_of('⋅', '⋅', '⋅', '⋅', '⋅', '⋅'),
{
    BorderSet::new('⋅', '⋅', '⋅', '⋅', '⋅', '⋅')
}

/// Full curved border — every corner is a quarter-circle arc.
pub fn curve() -> (b: BorderSet)
    ensures
        b == border_of('◜', '◝', '◟', '◞', '─', '│'),
{
    BorderSet::new('◜', '◝', '◟', '◞', '─', '│')
}

/// Classic ASCII border (safe on the oldest terminals).
pub fn ascii() -> (b: BorderSet)
    ensures
        b == border_of('+', '+', '+', '+', '-', '|'),
{
    BorderSet::new('+', '+', '+', '+', '-', '|')
}

/// A custom border from explicit glyphs.
pub fn custom(tl: char, tr: char, bl: char, br: char, h: char, v: char) -> (b: BorderSet)
    ensures
        b == border_of(tl, tr, bl, br, h, v),
{
    BorderSet::new(tl, tr, bl, br, h, v)
}

} // verus!
