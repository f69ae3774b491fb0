//! Handy names for a basic palette.
use vstd::prelude::*;
use crate::color::Color;

verus! {

pub const BLACK: Color = Color::Black;

pub const WHITE: Color = Color::White;

pub const RED: Color = Color::Red;

pub const GREEN: Color = Color::Green;

pub const BLUE: Color = Color::Blue;

pub const YELLOW: Color = Color::Yellow;

pub const CYAN: Color = Color::Cyan;

pub const MAGENTA: Color = Color::Magenta;

pub fn orange() -> (c: Color)
    ensures
        c == Color::Rgb(255, 140, 0),
{
    Color::Rgb(255, 140, 0)
}

pub fn pink() -> (c: Color)
    ensures
        c == Color::Rgb(255, 105, 180),
{
    Color::Rgb(255, 105, 180)
}

pub fn purple() -> (c: Color)
    ensures
        c == Color::Rgb(147, 112, 219),
{
    Color::Rgb(147, 112, 219)
}

pub fn teal() -> (c: Color)
    ensures
        c == Color::Rgb(0, 128, 128),
{
    Color::Rgb(0, 128, 128)
}

pub fn gold() -> (c: Color)
    ensures
        c == Color::Rgb(255, 215, 0),
{
    Color::Rgb(255, 215, 0)
}

pub fn slate() -> (c: Color)
    ensures
        c == Color::Rgb(112, 128, 144),
{
    Color::Rgb(112, 128, 144)
}

pub fn dark() -> (c: Color)
    ensures
        c == Color::Rgb(24, 24, 32),
{
    Color::Rgb(24, 24, 32)
}

} // verus!
