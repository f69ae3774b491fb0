//! Building blocks for the escape sequences the renderer emits: decimal
//! numbers and single characters appended to a `String`.
use vstd::prelude::*;

verus! {

/// The ASCII digit for `d` (`0 <= d < 10`).
pub open spec fn digit_spec(d: int) -> char {
    (48 + d) as char
}

/// Decimal representation of `n`, without leading zeros.
pub open spec fn dec(n: nat) -> Seq<char>
    decreases n,
{
    if n < 10 {
        seq![digit_spec(n as int)]
    } else {
        dec(n / 10).push(digit_spec((n % 10) as int))
    }
}

/// Appends `c` to the end of `s` (std's `String::push`).
#[verifier::external_body]
pub fn push_char(s: &mut String, c: char)
    ensures
        final(s)@ == old(s)@.push(c),
{
    s.push(c);
}

/// The ASCII digit for `d`.
pub fn digit(d: u32) -> (c: char)
    requires
        d < 10,
    ensures
        c == digit_spec(d as int),
{
    match d {
        0 => '0',
        1 => '1',
        2 => '2',
        3 => '3',
        4 => '4',
        5 => '5',
        6 => '6',
        7 => '7',
        8 => '8',
        _ => '9',
    }
}

/// Appends the decimal representation of `n`.
pub fn push_dec(out: &mut String, n: u32)
    ensures
        final(out)@ == old(out)@ + dec(n as nat),
    decreases n,
{
    if n >= 10 {
        push_dec(out, n / 10);
    }
    push_char(out, digit(n % 10));
    assert(final(out)@ =~= old(out)@ + dec(n as nat)) by {
        if n >= 10 {
            assert(dec(n as nat) == dec((n / 10) as nat).push(digit_spec((n % 10) as int)));
        }
    }
}

/// Appends every character of `cs`.
pub fn push_chars(out: &mut String, cs: &[char])
    ensures
        final(out)@ == old(out)@ + cs@,
{
    let mut i: usize = 0;
    while i < cs.len()
        invariant
            i <= cs.len(),
            out@ == old(out)@ + cs@.subrange(0, i as int),
        decreases cs.len() - i,
    {
        push_char(out, cs[i]);
        assert(cs@.subrange(0, i + 1) == cs@.subrange(0, i as int).push(cs@[i as int]));
        i = i + 1;
    }
    assert(cs@.subrange(0, cs@.len() as int) == cs@);
}

/// The characters of `s`, in order.
pub fn str_chars(s: &str) -> (v: Vec<char>)
    ensures
        v@ == s@,
{
    broadcast use vstd::string::group_string_axioms;

    let mut v: Vec<char> = Vec::new();
    for ch in it: s.chars()
        invariant
            v@ == it.seq().take(it.index() as int),
    {
        v.push(ch);
    }
    v
}

/// `ESC` followed by `[`: the control sequence introducer.
pub open spec fn csi() -> Seq<char> {
    seq!['\x1b', '[']
}

} // verus!
