//! A live clock: the time of day as `HH:MM:SS`.
use vstd::prelude::*;
use crate::ansi::{digit, digit_spec, push_char};

verus! {

/// `n` (below 100) as two decimal digits.
pub open spec fn two_digits(n: int) -> Seq<char> {
    seq![digit_spec(n / 10), digit_spec(n % 10)]
}

/// The time of day `secs` seconds after midnight of day zero, as `HH:MM:SS`.
pub open spec fn hms_spec(secs: nat) -> Seq<char> {
    two_digits(((secs / 3600) % 24) as int) + seq![':'] + two_digits(((secs / 60) % 60) as int) + seq![':']
        + two_digits((secs % 60) as int)
}

fn push_two(out: &mut String, n: u64)
    requires
        n < 100,
    ensures
        final(out)@ == old(out)@ + two_digits(n as int),
{
    push_char(out, digit((n / 10) as u32));
    push_char(out, digit((n % 10) as u32));
}

/// The time of day `secs` seconds after a midnight (such as the Unix epoch), as `HH:MM:SS`.
pub fn hms(secs: u64) -> (s: String)
    ensures
        s@ == hms_spec(secs as nat),
{
    let h = (secs / 3600) % 24;
    let m = (secs / 60) % 60;
    let sec = secs % 60;
    let mut s = String::new();
    push_two(&mut s, h);
    push_char(&mut s, ':');
    push_two(&mut s, m);
    push_char(&mut s, ':');
    push_two(&mut s, sec);
    assert(s@ =~= hms_spec(secs as nat));
    s
}

/// The clock program of the desktop.
pub struct ClockApp;

impl ClockApp {
    /// The window title.
    pub fn title(&self) -> (t: String)
        ensures
            t@ == "Clock"@,
    {
        "Clock".to_string()
    }

    /// The smallest window the clock fits in.
    pub fn min_size(&self) -> (r: (u16, u16))
        ensures
            r == (34u16, 14u16),
    {
        (34, 14)
    }
}

} // verus!
