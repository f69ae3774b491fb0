//! Input events: keyboard, mouse, resize, focus, tick. Includes a small
//! escape-sequence parser that turns raw terminal bytes into events.
use vstd::prelude::*;

verus! {

/// A key press.
#[derive(Clone, Copy, Debug, PartialEq, Eq, Structural)]
pub struct Key {
    pub code: KeyCode,
    pub ctrl: bool,
    pub alt: bool,
    pub shift: bool,
}

/// What a key represents.
#[derive(Clone, Copy, Debug, PartialEq, Eq, Structural)]
pub enum KeyCode {
    Char(char),
    Enter,
    Backspace,
    Tab,
    Esc,
    Delete,
    Insert,
    Home,
    End,
    PageUp,
    PageDown,
    Up,
    Down,
    Left,
    Right,
    F(u8),
    Null,
}

/// A key with no modifiers.
pub open spec fn plain_key(code: KeyCode) -> Key {
    Key { code, ctrl: false, alt: false, shift: false }
}

impl Key {
    pub fn new(code: KeyCode) -> (k: Key)
        ensures
            k == plain_key(code),
    {
        Key { code, ctrl: false, alt: false, shift: false }
    }

    pub fn char(c: char) -> (k: Key)
        ensures
            k == plain_key(KeyCode::Char(c)),
    {
        Key::new(KeyCode::Char(c))
    }

    pub fn ctrl(self, v: bool) -> (k: Key)
        ensures
            k == (Key { ctrl: v, ..self }),
    {
        Key { ctrl: v, ..self }
    }

    pub fn alt(self, v: bool) -> (k: Key)
        ensures
            k == (Key { alt: v, ..self }),
    {
        Key { alt: v, ..self }
    }

    pub fn shift(self, v: bool) -> (k: Key)
        ensures
            k == (Key { shift: v, ..self }),
    {
        Key { shift: v, ..self }
    }

    pub fn is_enter(&self) -> (b: bool)
        ensures
            b == (self.code == KeyCode::Enter),
    {
        self.code == KeyCode::Enter
    }

    pub fn is_esc(&self) -> (b: bool)
        ensures
            b == (self.code == KeyCode::Esc),
    {
        self.code == KeyCode::Esc
    }

    pub fn is_tab(&self) -> (b: bool)
        ensures
            b == (self.code == KeyCode::Tab),
    {
        self.code == KeyCode::Tab
    }

    pub fn is_backspace(&self) -> (b: bool)
        ensures
            b == (self.code == KeyCode::Backspace),
    {
        self.code == KeyCode::Backspace
    }

    pub fn is_char(&self, c: char) -> (b: bool)
        ensures
            b == (self.code == KeyCode::Char(c)),
    {
        self.code == KeyCode::Char(c)
    }

    pub fn is_ctrl(&self, c: char) -> (b: bool)
        ensures
            b == (self.ctrl && self.code == KeyCode::Char(c)),
    {
        self.ctrl && self.code == KeyCode::Char(c)
    }

    pub fn is(&self, c: KeyCode) -> (b: bool)
        ensures
            b == (self.code == c),
    {
        self.code == c
    }
}

/// Mouse button / wheel.
#[derive(Clone, Copy, Debug, PartialEq, Eq, Structural)]
pub enum MouseButton {
    Left,
    Middle,
    Right,
    WheelUp,
    WheelDown,
}

/// A mouse event (SGR 1006 encoded).
#[derive(Clone, Copy, Debug, PartialEq, Eq, Structural)]
pub struct Mouse {
    pub x: u16,
    pub y: u16,
    pub button: MouseButton,
    pub kind: MouseKind,
}

#[derive(Clone, Copy, Debug, PartialEq, Eq, Structural)]
pub enum MouseKind {
    Press,
    Release,
    Motion,
}

/// Anything that can happen while the app is running.
#[derive(Clone, Copy, Debug, PartialEq, Eq, Structural)]
pub enum Event {
    Key(Key),
    Mouse(Mouse),
    Resize(u16, u16),
    Tick,
    Focus(bool),
    Quit,
}

// ---------------------------------------------------------------------------
// Trimming Unicode whitespace, on the UTF-8 bytes of a text.
// ---------------------------------------------------------------------------

pub open spec fn is_ascii_ws(b: u8) -> bool {
    b == 0x09 || b == 0x0a || b == 0x0b || b == 0x0c || b == 0x0d || b == 0x20
}

/// Whether `a b` is the UTF-8 encoding of a two-byte whitespace character
/// (U+0085, U+00A0).
pub open spec fn is_ws2(a: u8, b: u8) -> bool {
    a == 0xc2 && (b == 0x85 || b == 0xa0)
}

/// Whether `a b c` is the UTF-8 encoding of a three-byte whitespace
/// character (U+1680, U+2000–U+200A, U+2028, U+2029, U+202F, U+205F, U+3000).
pub open spec fn is_ws3(a: u8, b: u8, c: u8) -> bool {
    ||| a == 0xe1 && b == 0x9a && c == 0x80
    ||| a == 0xe2 && b == 0x80 && (0x80 <= c <= 0x8a || c == 0xa8 || c == 0xa9 || c == 0xaf)
    ||| a == 0xe2 && b == 0x81 && c == 0x9f
    ||| a == 0xe3 && b == 0x80 && c == 0x80
}

/// Length of the whitespace character `bs` starts with, or 0.
pub open spec fn leading_ws_len(bs: Seq<u8>) -> int {
    if bs.len() >= 1 && is_ascii_ws(bs[0]) {
        1
    } else if bs.len() >= 2 && is_ws2(bs[0], bs[1]) {
        2
    } else if bs.len() >= 3 && is_ws3(bs[0], bs[1], bs[2]) {
        3
    } else {
        0
    }
}

/// Length of the whitespace character `bs` ends with, or 0.
pub open spec fn trailing_ws_len(bs: Seq<u8>) -> int {
    let n = bs.len() as int;
    if n >= 1 && is_ascii_ws(bs[n - 1]) {
        1
    } else if n >= 2 && is_ws2(bs[n - 2], bs[n - 1]) {
        2
    } else if n >= 3 && is_ws3(bs[n - 3], bs[n - 2], bs[n - 1]) {
        3
    } else {
        0
    }
}

/// `bs` without leading whitespace characters.
pub open spec fn trim_start_ws(bs: Seq<u8>) -> Seq<u8>
    decreases bs.len(),
{
    if leading_ws_len(bs) > 0 {
        trim_start_ws(bs.subrange(leading_ws_len(bs), bs.len() as int))
    } else {
        bs
    }
}

/// `bs` without trailing whitespace characters.
pub open spec fn trim_end_ws(bs: Seq<u8>) -> Seq<u8>
    decreases bs.len(),
{
    if trailing_ws_len(bs) > 0 {
        trim_end_ws(bs.subrange(0, bs.len() - trailing_ws_len(bs)))
    } else {
        bs
    }
}

/// `bs` without whitespace at either end (`str::trim` on the text it encodes).
pub open spec fn trim_ws(bs: Seq<u8>) -> Seq<u8> {
    trim_end_ws(trim_start_ws(bs))
}

fn leading_ws(bs: &[u8], from: usize, to: usize) -> (n: usize)
    requires
        from <= to <= bs.len(),
    ensures
        n == leading_ws_len(bs@.subrange(from as int, to as int)),
{
    let ghost s = bs@.subrange(from as int, to as int);
    let len = to - from;
    if len >= 1 && (bs[from] == 0x09 || bs[from] == 0x0a || bs[from] == 0x0b || bs[from] == 0x0c
        || bs[from] == 0x0d || bs[from] == 0x20) {
        1
    } else if len >= 2 && bs[from] == 0xc2 && (bs[from + 1] == 0x85 || bs[from + 1] == 0xa0) {
        2
    } else if len >= 3 && is_ws3_exec(bs[from], bs[from + 1], bs[from + 2]) {
        3
    } else {
        0
    }
}

fn trailing_ws(bs: &[u8], from: usize, to: usize) -> (n: usize)
    requires
        from <= to <= bs.len(),
    ensures
        n == trailing_ws_len(bs@.subrange(from as int, to as int)),
{
    let len = to - from;
    if len >= 1 && (bs[to - 1] == 0x09 || bs[to - 1] == 0x0a || bs[to - 1] == 0x0b || bs[to - 1]
        == 0x0c || bs[to - 1] == 0x0d || bs[to - 1] == 0x20) {
        1
    } else if len >= 2 && bs[to - 2] == 0xc2 && (bs[to - 1] == 0x85 || bs[to - 1] == 0xa0) {
        2
    } else if len >= 3 && is_ws3_exec(bs[to - 3], bs[to - 2], bs[to - 1]) {
        3
    } else {
        0
    }
}

fn is_ws3_exec(a: u8, b: u8, c: u8) -> (r: bool)
    ensures
        r == is_ws3(a, b, c),
{
    (a == 0xe1 && b == 0x9a && c == 0x80) || (a == 0xe2 && b == 0x80 && ((0x80 <= c && c <= 0x8a)
        || c == 0xa8 || c == 0xa9 || c == 0xaf)) || (a == 0xe2 && b == 0x81 && c == 0x9f) || (a
        == 0xe3 && b == 0x80 && c == 0x80)
}

/// The range of `bs[from..to]` left after trimming whitespace at both ends.
fn trim_range(bs: &[u8], from: usize, to: usize) -> (r: (usize, usize))
    requires
        from <= to <= bs.len(),
    ensures
        from <= r.0 <= r.1 <= to,
        bs@.subrange(r.0 as int, r.1 as int) == trim_ws(bs@.subrange(from as int, to as int)),
{
    let mut a = from;
    while a < to
        invariant
            from <= a <= to <= bs.len(),
            trim_start_ws(bs@.subrange(from as int, to as int)) == trim_start_ws(
                bs@.subrange(a as int, to as int),
            ),
        ensures
            from <= a <= to <= bs.len(),
            trim_start_ws(bs@.subrange(from as int, to as int)) == trim_start_ws(
                bs@.subrange(a as int, to as int),
            ),
            leading_ws_len(bs@.subrange(a as int, to as int)) == 0,
        decreases to - a,
    {
        let n = leading_ws(bs, a, to);
        if n == 0 {
            break;
        }
        assert(bs@.subrange(a as int, to as int).subrange(n as int, (to - a) as int) =~= bs@.subrange(
            a + n,
            to as int,
        ));
        a = a + n;
    }
    assert(trim_start_ws(bs@.subrange(a as int, to as int)) == bs@.subrange(a as int, to as int));
    let mut b = to;
    while b > a
        invariant
            from <= a <= b <= to <= bs.len(),
            trim_ws(bs@.subrange(from as int, to as int)) == trim_end_ws(
                bs@.subrange(a as int, b as int),
            ),
        ensures
            from <= a <= b <= to <= bs.len(),
            trim_ws(bs@.subrange(from as int, to as int)) == trim_end_ws(
                bs@.subrange(a as int, b as int),
            ),
            trailing_ws_len(bs@.subrange(a as int, b as int)) == 0,
        decreases b - a,
    {
        let n = trailing_ws(bs, a, b);
        if n == 0 {
            break;
        }
        assert(bs@.subrange(a as int, b as int).subrange(0, (b - a - n) as int) =~= bs@.subrange(
            a as int,
            b - n,
        ));
        b = b - n;
    }
    (a, b)
}

/// The key named by the parameters of a `CSI … ~` sequence: `1`/`7` Home,
/// `2` Insert, `3` Delete, `4`/`8` End, `5`/`6` PageUp/PageDown and
/// `11`–`24` the function keys; anything else is `Null`.
pub open spec fn tilde_key(params: Seq<u8>) -> KeyCode {
    let t = trim_ws(params);
    if t.len() == 1 {
        let c = t[0];
        if c == 0x31 || c == 0x37 {
            KeyCode::Home
        } else if c == 0x32 {
            KeyCode::Insert
        } else if c == 0x33 {
            KeyCode::Delete
        } else if c == 0x34 || c == 0x38 {
            KeyCode::End
        } else if c == 0x35 {
            KeyCode::PageUp
        } else if c == 0x36 {
            KeyCode::PageDown
        } else {
            KeyCode::Null
        }
    } else if t.len() == 2 && t[0] == 0x31 {
        let c = t[1];
        if c == 0x31 {
            KeyCode::F(1)
        } else if c == 0x32 {
            KeyCode::F(2)
        } else if c == 0x33 {
            KeyCode::F(3)
        } else if c == 0x34 {
            KeyCode::F(4)
        } else if c == 0x35 {
            KeyCode::F(5)
        } else if c == 0x37 {
            KeyCode::F(6)
        } else if c == 0x38 {
            KeyCode::F(7)
        } else if c == 0x39 {
            KeyCode::F(8)
        } else {
            KeyCode::Null
        }
    } else if t.len() == 2 && t[0] == 0x32 {
        let c = t[1];
        if c == 0x30 {
            KeyCode::F(9)
        } else if c == 0x31 {
            KeyCode::F(10)
        } else if c == 0x33 {
            KeyCode::F(11)
        } else if c == 0x34 {
            KeyCode::F(12)
        } else {
            KeyCode::Null
        }
    } else {
        KeyCode::Null
    }
}

/// The key named by the parameters `bs[from..to]` of a `CSI … ~` sequence
/// (surrounding whitespace ignored).
fn map_tilde(bs: &[u8], from: usize, to: usize) -> (k: KeyCode)
    requires
        from <= to <= bs.len(),
    ensures
        k == tilde_key(bs@.subrange(from as int, to as int)),
{
    let (a, b) = trim_range(bs, from, to);
    let ghost t = bs@.subrange(a as int, b as int);
    let n = b - a;
    if n == 1 {
        let c = bs[a];
        match c {
            0x31 | 0x37 => KeyCode::Home,
            0x32 => KeyCode::Insert,
            0x33 => KeyCode::Delete,
            0x34 | 0x38 => KeyCode::End,
            0x35 => KeyCode::PageUp,
            0x36 => KeyCode::PageDown,
            _ => KeyCode::Null,
        }
    } else if n == 2 {
        let c0 = bs[a];
        let c1 = bs[a + 1];
        if c0 == 0x31 {
            match c1 {
                0x31 => KeyCode::F(1),
                0x32 => KeyCode::F(2),
                0x33 => KeyCode::F(3),
                0x34 => KeyCode::F(4),
                0x35 => KeyCode::F(5),
                0x37 => KeyCode::F(6),
                0x38 => KeyCode::F(7),
                0x39 => KeyCode::F(8),
                _ => KeyCode::Null,
            }
        } else if c0 == 0x32 {
            match c1 {
                0x30 => KeyCode::F(9),
                0x31 => KeyCode::F(10),
                0x33 => KeyCode::F(11),
                0x34 => KeyCode::F(12),
                _ => KeyCode::Null,
            }
        } else {
            KeyCode::Null
        }
    } else {
        KeyCode::Null
    }
}


// ---------------------------------------------------------------------------
// SGR mouse reports: `CSI < button ; x ; y M` (press/motion) or `… m` (release).
// ---------------------------------------------------------------------------

/// `bs` without its leading `<` bytes.
pub open spec fn strip_lt(bs: Seq<u8>) -> Seq<u8>
    decreases bs.len(),
{
    if bs.len() > 0 && bs[0] == 0x3c {
        strip_lt(bs.drop_first())
    } else {
        bs
    }
}

/// The pieces of `t` between `;` separators (`str::split(';')`).
pub open spec fn split_semis(t: Seq<u8>) -> Seq<Seq<u8>>
    decreases t.len(),
{
    if t.len() == 0 {
        seq![seq![]]
    } else {
        let s = split_semis(t.drop_last());
        if t.last() == 0x3b {
            s.push(seq![])
        } else {
            s.update(s.len() - 1, s.last().push(t.last()))
        }
    }
}

/// `field` without one leading `+`.
pub open spec fn without_plus(field: Seq<u8>) -> Seq<u8> {
    if field.len() > 0 && field[0] == 0x2b {
        field.drop_first()
    } else {
        field
    }
}

pub open spec fn all_digits(ds: Seq<u8>) -> bool {
    forall|i: int| 0 <= i < ds.len() ==> 0x30 <= #[trigger] ds[i] <= 0x39
}

/// Base-10 value of a run of ASCII digits.
pub open spec fn dec_value(ds: Seq<u8>) -> int
    decreases ds.len(),
{
    if ds.len() == 0 {
        0
    } else {
        dec_value(ds.drop_last()) * 10 + (ds.last() - 0x30)
    }
}

/// Parsing `field` as an unsigned integer of at most `max` (`str::parse`):
/// an optional `+`, then at least one digit.
pub open spec fn parse_uint(field: Seq<u8>, max: int) -> Option<int> {
    let ds = without_plus(field);
    if ds.len() == 0 || !all_digits(ds) || dec_value(ds) > max {
        None
    } else {
        Some(dec_value(ds))
    }
}

pub open spec fn mouse_kind_of(btn: u32, final_byte: u8) -> MouseKind {
    if final_byte == 0x6d {
        MouseKind::Release
    } else if btn & 32 != 0 {
        MouseKind::Motion
    } else {
        MouseKind::Press
    }
}

pub open spec fn mouse_button_of(btn: u32) -> MouseButton {
    if btn & 64 != 0 {
        if btn & 1 != 0 {
            MouseButton::WheelDown
        } else {
            MouseButton::WheelUp
        }
    } else if btn & 3 == 1 {
        MouseButton::Middle
    } else if btn & 3 == 2 {
        MouseButton::Right
    } else {
        MouseButton::Left
    }
}

/// The mouse event an SGR report body (`<b;x;y`) describes; coordinates
/// become 0-based. `None` unless there are exactly three numeric fields.
pub open spec fn mouse_report(body: Seq<u8>, final_byte: u8) -> Option<Mouse> {
    let parts = split_semis(strip_lt(body));
    if parts.len() != 3 {
        None
    } else {
        match (
            parse_uint(parts[0], u32::MAX as int),
            parse_uint(parts[1], u16::MAX as int),
            parse_uint(parts[2], u16::MAX as int),
        ) {
            (Some(btn), Some(x), Some(y)) => Some(
                Mouse {
                    x: (if x >= 1 {
                        x - 1
                    } else {
                        0
                    }) as u16,
                    y: (if y >= 1 {
                        y - 1
                    } else {
                        0
                    }) as u16,
                    button: mouse_button_of(btn as u32),
                    kind: mouse_kind_of(btn as u32, final_byte),
                },
            ),
            _ => None,
        }
    }
}

proof fn lemma_dec_value_prefix(ds: Seq<u8>, k: int)
    requires
        all_digits(ds),
        0 <= k <= ds.len(),
    ensures
        0 <= dec_value(ds.take(k)) <= dec_value(ds),
    decreases ds.len() - k,
{
    if k < ds.len() {
        lemma_dec_value_prefix(ds, k + 1);
        assert(ds.take(k + 1).drop_last() =~= ds.take(k));
        assert(0x30 <= ds[k] <= 0x39);
    } else {
        assert(ds.take(k) =~= ds);
        lemma_dec_value_nonneg(ds);
    }
}

proof fn lemma_dec_value_nonneg(ds: Seq<u8>)
    requires
        all_digits(ds),
    ensures
        0 <= dec_value(ds),
    decreases ds.len(),
{
    if ds.len() > 0 {
        let p = ds.drop_last();
        assert forall|i: int| 0 <= i < p.len() implies 0x30 <= #[trigger] p[i] <= 0x39 by {
            assert(p[i] == ds[i]);
        }
        lemma_dec_value_nonneg(p);
        assert(0x30 <= ds[ds.len() - 1] <= 0x39);
    }
}

/// `bs[from..to]` parsed as an unsigned integer of at most `max`.
fn parse_uint_exec(bs: &[u8], from: usize, to: usize, max: u32) -> (r: Option<u32>)
    requires
        from <= to <= bs.len(),
    ensures
        r == match parse_uint(bs@.subrange(from as int, to as int), max as int) {
            Some(v) => Some(v as u32),
            None => None::<u32>,
        },
        r matches Some(v) ==> v <= max,
        parse_uint(bs@.subrange(from as int, to as int), max as int) matches Some(v) ==> 0 <= v
            <= max,
{
    let ghost field = bs@.subrange(from as int, to as int);
    let mut i = from;
    if to - from >= 1 && bs[from] == 0x2b {
        i = from + 1;
    }
    let start = i;
    let ghost ds = bs@.subrange(start as int, to as int);
    assert(ds == without_plus(field));
    if start == to {
        return None;
    }
    let mut v: u64 = 0;
    while i < to
        invariant
            from <= start <= i <= to <= bs.len(),
            ds == bs@.subrange(start as int, to as int),
            ds == without_plus(field),
            field == bs@.subrange(from as int, to as int),
            all_digits(bs@.subrange(start as int, i as int)),
            v == dec_value(bs@.subrange(start as int, i as int)),
            v <= max,
        decreases to - i,
    {
        let b = bs[i];
        if b < 0x30 || b > 0x39 {
            assert(ds[i - start] == b);
            assert(!all_digits(ds));
            return None;
        }
        let ghost pre = bs@.subrange(start as int, i as int);
        let ghost next = bs@.subrange(start as int, i + 1);
        assert(next.drop_last() =~= pre);
        assert(all_digits(next)) by {
            assert forall|k: int| 0 <= k < next.len() implies 0x30 <= #[trigger] next[k] <= 0x39 by {
                if k < pre.len() {
                    assert(next[k] == pre[k]);
                }
            }
        }
        v = v * 10 + (b - 0x30) as u64;
        if v > max as u64 {
            proof {
                if all_digits(ds) {
                    assert(ds.take(i + 1 - start) =~= next);
                    lemma_dec_value_prefix(ds, i + 1 - start);
                }
            }
            return None;
        }
        i = i + 1;
    }
    assert(bs@.subrange(start as int, to as int) == ds);
    proof {
        lemma_dec_value_nonneg(ds);
    }
    Some(v as u32)
}

/// The SGR mouse report with body `bs[from..to]` and final byte `final_byte`.
fn parse_mouse(bs: &[u8], from: usize, to: usize, final_byte: u8) -> (m: Option<Mouse>)
    requires
        from <= to <= bs.len(),
    ensures
        m == mouse_report(bs@.subrange(from as int, to as int), final_byte),
{
    let ghost body = bs@.subrange(from as int, to as int);
    let mut a = from;
    assert(body == bs@.subrange(a as int, to as int));
    while a < to && bs[a] == 0x3c
        invariant
            from <= a <= to <= bs.len(),
            strip_lt(body) == strip_lt(bs@.subrange(a as int, to as int)),
        decreases to - a,
    {
        assert(bs@.subrange(a as int, to as int).drop_first() =~= bs@.subrange(a + 1, to as int));
        a = a + 1;
    }
    let ghost t = bs@.subrange(a as int, to as int);
    assert(strip_lt(body) == t);
    // split on ';', remembering where the first two separators are
    let mut cnt: usize = 0;
    let mut p1: usize = a;
    let mut p2: usize = a;
    let mut cur: usize = a;
    let mut k: usize = a;
    assert(t.take(0) =~= seq![]);
    while k < to
        invariant
            a <= k <= to <= bs.len(),
            t == bs@.subrange(a as int, to as int),
            split_semis(t.take(k - a)).len() == cnt + 1,
            cnt >= 1 ==> a <= p1 < k && split_semis(t.take(k - a))[0] == bs@.subrange(
                a as int,
                p1 as int,
            ),
            cnt >= 2 ==> p1 < p2 < k && split_semis(t.take(k - a))[1] == bs@.subrange(
                p1 + 1,
                p2 as int,
            ),
            cnt <= 2 ==> a <= cur <= k && split_semis(t.take(k - a)).last() == bs@.subrange(
                cur as int,
                k as int,
            ),
            cnt == 0 ==> cur == a,
            cnt == 1 ==> cur == p1 + 1,
            cnt == 2 ==> cur == p2 + 1,
            cnt <= k - a,
        decreases to - k,
    {
        let ghost sp = split_semis(t.take(k - a));
        assert(t.take(k - a + 1).drop_last() =~= t.take(k - a));
        assert(t.take(k - a + 1).last() == bs@[k as int]);
        if bs[k] == 0x3b {
            if cnt == 0 {
                p1 = k;
            } else if cnt == 1 {
                p2 = k;
            }
            if cnt <= 1 {
                cur = k + 1;
                assert(bs@.subrange(cur as int, k + 1) =~= seq![]);
            }
            cnt = cnt + 1;
        } else {
            if cnt <= 2 {
                assert(bs@.subrange(cur as int, k + 1) =~= bs@.subrange(cur as int, k as int).push(
                    bs@[k as int],
                ));
            }
        }
        k = k + 1;
    }
    assert(t.take(to - a) =~= t);
    if cnt != 2 {
        return None;
    }
    let btn = parse_uint_exec(bs, a, p1, u32::MAX);
    let x = parse_uint_exec(bs, p1 + 1, p2, 65535);
    let y = parse_uint_exec(bs, p2 + 1, to, 65535);
    match (btn, x, y) {
        (Some(btn), Some(x), Some(y)) => {
            assert(x <= 65535 && y <= 65535);
            let x16: u16 = x as u16;
            let y16: u16 = y as u16;
            assert(x16 == x && y16 == y);
            let x = x16.saturating_sub(1);
            let y = y16.saturating_sub(1);
            let kind = if final_byte == 0x6d {
                MouseKind::Release
            } else if btn & 32 != 0 {
                MouseKind::Motion
            } else {
                MouseKind::Press
            };
            let button = if btn & 64 != 0 {
                if btn & 1 != 0 {
                    MouseButton::WheelDown
                } else {
                    MouseButton::WheelUp
                }
            } else if btn & 3 == 1 {
                MouseButton::Middle
            } else if btn & 3 == 2 {
                MouseButton::Right
            } else {
                MouseButton::Left
            };
            Some(Mouse { x, y, button, kind })
        },
        _ => None,
    }
}


// ---------------------------------------------------------------------------
// The byte-stream parser.
// ---------------------------------------------------------------------------

/// Final bytes of a control sequence are `0x40..=0x7e`.
pub open spec fn is_final_byte(c: u8) -> bool {
    0x40 <= c <= 0x7e
}

/// Index of the first final byte at or after `i`, or `b.len()` when there is none.
pub open spec fn first_final_from(b: Seq<u8>, i: int) -> int
    decreases b.len() - i,
{
    if i >= b.len() {
        b.len() as int
    } else if is_final_byte(b[i]) {
        i
    } else {
        first_final_from(b, i + 1)
    }
}

/// The key a `CSI` sequence with final byte `f` and parameters `body` names.
pub open spec fn csi_key(f: u8, body: Seq<u8>) -> KeyCode {
    if f == 0x41 {
        KeyCode::Up
    } else if f == 0x42 {
        KeyCode::Down
    } else if f == 0x43 {
        KeyCode::Right
    } else if f == 0x44 {
        KeyCode::Left
    } else if f == 0x48 {
        KeyCode::Home
    } else if f == 0x46 {
        KeyCode::End
    } else if f == 0x7e {
        tilde_key(body)
    } else {
        KeyCode::Null
    }
}

/// One step on a buffer starting with `ESC [`: `None` while the sequence is
/// incomplete, else the event it yields (if any) and the bytes it spans.
pub open spec fn csi_step(b: Seq<u8>) -> Option<(Option<Event>, int)> {
    if b.len() < 3 {
        None
    } else {
        let i = first_final_from(b, 2);
        if i >= b.len() {
            None
        } else {
            let f = b[i];
            let body = b.subrange(2, i);
            if body.len() > 0 && body[0] == 0x3c && (f == 0x4d || f == 0x6d) {
                Some(
                    (
                        match mouse_report(body, f) {
                            Some(m) => Some(Event::Mouse(m)),
                            None => None,
                        },
                        i + 1,
                    ),
                )
            } else {
                let code = csi_key(f, body);
                Some(
                    (
                        if code != KeyCode::Null {
                            Some(Event::Key(plain_key(code)))
                        } else {
                            None
                        },
                        i + 1,
                    ),
                )
            }
        }
    }
}

/// The key a single non-escape byte stands for.
pub open spec fn byte_key(c: u8) -> Key {
    if c == 0x0d || c == 0x0a {
        plain_key(KeyCode::Enter)
    } else if c == 0x7f || c == 0x08 {
        plain_key(KeyCode::Backspace)
    } else if c == 0x09 {
        plain_key(KeyCode::Tab)
    } else if c == 0x03 {
        Key { ctrl: true, ..plain_key(KeyCode::Char('c')) }
    } else if c < 0x20 {
        Key { ctrl: true, ..plain_key(KeyCode::Char((c + 0x60) as char)) }
    } else {
        plain_key(KeyCode::Char(c as char))
    }
}

/// One parsing step at the front of `b`: `None` when more bytes are
/// needed, else the event produced (if any) and the number of bytes used.
pub open spec fn parse_step(b: Seq<u8>) -> Option<(Option<Event>, int)> {
    if b.len() == 0 {
        None
    } else if b[0] == 0x1b {
        if b.len() < 2 {
            None
        } else if b[1] == 0x5b {
            csi_step(b)
        } else if b[1] == 0x4f {
            if b.len() >= 3 && 0x50 <= b[2] <= 0x53 {
                Some((Some(Event::Key(plain_key(KeyCode::F((b[2] - 0x50 + 1) as u8)))), 3))
            } else {
                Some((Some(Event::Focus(false)), 2))
            }
        } else if b[1] == 0x49 {
            Some((Some(Event::Focus(true)), 2))
        } else {
            Some((Some(Event::Key(plain_key(KeyCode::Esc))), 1))
        }
    } else {
        Some((Some(Event::Key(byte_key(b[0]))), 1))
    }
}

pub open spec fn opt_seq(e: Option<Event>) -> Seq<Event> {
    match e {
        Some(ev) => seq![ev],
        None => seq![],
    }
}

/// All events at the front of `b`, and the incomplete tail left over.
pub open spec fn parse_events(b: Seq<u8>) -> (Seq<Event>, Seq<u8>)
    decreases b.len(),
{
    match parse_step(b) {
        None => (seq![], b),
        Some((e, n)) => if 1 <= n <= b.len() {
            let rest = parse_events(b.subrange(n, b.len() as int));
            (opt_seq(e) + rest.0, rest.1)
        } else {
            (seq![], b)
        },
    }
}

proof fn lemma_first_final(b: Seq<u8>, i: int)
    requires
        0 <= i <= b.len(),
    ensures
        i <= first_final_from(b, i) <= b.len(),
        first_final_from(b, i) < b.len() ==> is_final_byte(b[first_final_from(b, i)]),
        forall|k: int| i <= k < first_final_from(b, i) ==> !is_final_byte(#[trigger] b[k]),
    decreases b.len() - i,
{
    if i < b.len() && !is_final_byte(b[i]) {
        lemma_first_final(b, i + 1);
    }
}

/// A step never uses more bytes than there are, and always at least one.
pub proof fn lemma_parse_step_bounds(b: Seq<u8>)
    ensures
        parse_step(b) matches Some((e, n)) ==> 1 <= n <= b.len(),
{
    if b.len() >= 3 && b[0] == 0x1b && b[1] == 0x5b {
        lemma_first_final(b, 2);
    }
}

/// Incremental parser turning raw bytes into [`Event`]s.
pub struct Parser {
    buf: Vec<u8>,
}

impl Parser {
    /// Bytes received but not yet turned into events.
    pub closed spec fn pending(&self) -> Seq<u8> {
        self.buf@
    }

    pub fn new() -> (p: Parser)
        ensures
            p.pending() == Seq::<u8>::empty(),
    {
        Parser { buf: Vec::new() }
    }

    /// Feed raw bytes; produced events are appended to `out`.
    pub fn feed(&mut self, bytes: &[u8], out: &mut Vec<Event>)
        ensures
            final(out)@ == old(out)@ + parse_events(old(self).pending() + bytes@).0,
            final(self).pending() == parse_events(old(self).pending() + bytes@).1,
    {
        let mut i: usize = 0;
        while i < bytes.len()
            invariant
                i <= bytes.len(),
                self.buf@ == old(self).buf@ + bytes@.subrange(0, i as int),
            decreases bytes.len() - i,
        {
            self.buf.push(bytes[i]);
            assert(bytes@.subrange(0, i + 1) == bytes@.subrange(0, i as int).push(bytes@[i as int]));
            i = i + 1;
        }
        assert(bytes@.subrange(0, bytes@.len() as int) == bytes@);
        let ghost all = self.buf@;
        let pos = drain_events(&self.buf, out);
        let mut left: Vec<u8> = Vec::new();
        let mut k = pos;
        while k < self.buf.len()
            invariant
                pos <= k <= self.buf@.len(),
                self.buf@ == all,
                left@ == all.subrange(pos as int, k as int),
            decreases self.buf@.len() - k,
        {
            left.push(self.buf[k]);
            assert(all.subrange(pos as int, k + 1) == all.subrange(pos as int, k as int).push(
                all[k as int],
            ));
            k = k + 1;
        }
        self.buf = left;
    }
}

/// Parses every complete event in `buf`, appending them to `out`; returns
/// where the incomplete tail starts.
fn drain_events(buf: &Vec<u8>, out: &mut Vec<Event>) -> (pos: usize)
    ensures
        pos <= buf@.len(),
        final(out)@ == old(out)@ + parse_events(buf@).0,
        buf@.subrange(pos as int, buf@.len() as int) == parse_events(buf@).1,
{
    let ghost all = buf@;
    let blen = buf.len();
    let mut pos: usize = 0;
    assert(all.subrange(0, all.len() as int) == all);
    assert(old(out)@ + parse_events(all).0 == out@ + parse_events(all).0);
    loop
        invariant
            pos <= all.len(),
            blen == all.len(),
            all == buf@,
            out@ + parse_events(all.subrange(pos as int, all.len() as int)).0 == old(out)@
                + parse_events(all).0,
            parse_events(all.subrange(pos as int, all.len() as int)).1 == parse_events(all).1,
        decreases all.len() - pos,
    {
        let ghost rest = all.subrange(pos as int, all.len() as int);
        let ghost before = out@;
        proof {
            lemma_parse_step_bounds(rest);
        }
        match parse_one(buf, pos, out) {
            Some(n) => {
                proof {
                    assert(parse_step(rest) is Some);
                    let ns = parse_step(rest).unwrap().1;
                    assert(1 <= ns <= rest.len());
                    assert(n == ns);
                    let next = rest.subrange(n as int, rest.len() as int);
                    assert(next =~= all.subrange(pos + n, all.len() as int));
                    let e = parse_step(rest).unwrap().0;
                    assert(parse_events(rest).0 == opt_seq(e) + parse_events(next).0);
                    assert(parse_events(rest).1 == parse_events(next).1);
                    assert(out@ + parse_events(next).0 =~= before + parse_events(rest).0);
                }
                pos = pos + n;
            },
            None => {
                assert(parse_events(rest).1 == rest);
                assert(parse_events(rest).0 =~= seq![]);
                assert(out@ =~= out@ + parse_events(rest).0);
                return pos;
            },
        }
    }
}

/// Parses one event from `buf[pos..]`, appending it to `out` when there is
/// one. Returns the number of bytes used, or `None` when more are needed.
fn parse_one(buf: &Vec<u8>, pos: usize, out: &mut Vec<Event>) -> (r: Option<usize>)
    requires
        pos <= buf.len(),
    ensures
        ({
            let rest = buf@.subrange(pos as int, buf@.len() as int);
            match parse_step(rest) {
                None => r is None && final(out)@ == old(out)@,
                Some((e, n)) => r == Some(n as usize) && final(out)@ == old(out)@ + opt_seq(e),
            }
        }),
{
    let ghost rest = buf@.subrange(pos as int, buf@.len() as int);
    let len = buf.len() - pos;
    if len == 0 {
        return None;
    }
    let first = buf[pos];
    if first == 0x1b {
        if len < 2 {
            return None;
        }
        let second = buf[pos + 1];
        if second == 0x5b {
            return parse_csi(buf, pos, out);
        } else if second == 0x4f {
            if len >= 3 && 0x50 <= buf[pos + 2] && buf[pos + 2] <= 0x53 {
                let f = buf[pos + 2] - 0x50 + 1;
                out.push(Event::Key(Key::new(KeyCode::F(f))));
                return Some(3);
            }
            out.push(Event::Focus(false));
            return Some(2);
        } else if second == 0x49 {
            out.push(Event::Focus(true));
            return Some(2);
        } else {
            out.push(Event::Key(Key::new(KeyCode::Esc)));
            return Some(1);
        }
    }
    let ev = if first == 0x0d || first == 0x0a {
        Event::Key(Key::new(KeyCode::Enter))
    } else if first == 0x7f || first == 0x08 {
        Event::Key(Key::new(KeyCode::Backspace))
    } else if first == 0x09 {
        Event::Key(Key::new(KeyCode::Tab))
    } else if first == 0x03 {
        Event::Key(Key::new(KeyCode::Char('c')).ctrl(true))
    } else if first < 0x20 {
        let ch = (first + 0x60) as char;
        Event::Key(Key::new(KeyCode::Char(ch)).ctrl(true))
    } else {
        Event::Key(Key::new(KeyCode::Char(first as char)))
    };
    out.push(ev);
    Some(1)
}

/// Parses a control sequence `ESC [ … final` at `buf[pos..]`.
fn parse_csi(buf: &Vec<u8>, pos: usize, out: &mut Vec<Event>) -> (r: Option<usize>)
    requires
        pos + 2 <= buf.len(),
        buf@[pos as int] == 0x1b,
        buf@[pos + 1] == 0x5b,
    ensures
        ({
            let rest = buf@.subrange(pos as int, buf@.len() as int);
            match csi_step(rest) {
                None => r is None && final(out)@ == old(out)@,
                Some((e, n)) => r == Some(n as usize) && final(out)@ == old(out)@ + opt_seq(e),
            }
        }),
{
    let ghost rest = buf@.subrange(pos as int, buf@.len() as int);
    let len = buf.len() - pos;
    if len < 3 {
        return None;
    }
    let mut i: usize = 2;
    proof {
        lemma_first_final(rest, 2);
    }
    while i < len && !(0x40 <= buf[pos + i] && buf[pos + i] <= 0x7e)
        invariant
            2 <= i <= len,
            len == rest.len(),
            pos + len == buf.len(),
            rest == buf@.subrange(pos as int, buf@.len() as int),
            first_final_from(rest, 2) == first_final_from(rest, i as int),
        decreases len - i,
    {
        assert(rest[i as int] == buf@[pos + i]);
        i = i + 1;
    }
    if i >= len {
        return None;
    }
    assert(rest[i as int] == buf@[pos + i]);
    let final_byte = buf[pos + i];
    let used = i + 1;
    let ghost body = rest.subrange(2, i as int);
    assert(body == buf@.subrange(pos + 2, pos + i));
    let is_mouse = i > 2 && buf[pos + 2] == 0x3c;
    assert(is_mouse == (body.len() > 0 && body[0] == 0x3c));
    if is_mouse && (final_byte == 0x4d || final_byte == 0x6d) {
        if let Some(m) = parse_mouse(buf.as_slice(), pos + 2, pos + i, final_byte) {
            out.push(Event::Mouse(m));
        }
        return Some(used);
    }
    let code = if final_byte == 0x41 {
        KeyCode::Up
    } else if final_byte == 0x42 {
        KeyCode::Down
    } else if final_byte == 0x43 {
        KeyCode::Right
    } else if final_byte == 0x44 {
        KeyCode::Left
    } else if final_byte == 0x48 {
        KeyCode::Home
    } else if final_byte == 0x46 {
        KeyCode::End
    } else if final_byte == 0x7e {
        map_tilde(buf.as_slice(), pos + 2, pos + i)
    } else {
        KeyCode::Null
    };
    if code != KeyCode::Null {
        out.push(Event::Key(Key::new(code)));
    }
    Some(used)
}

/// A printable ASCII byte other than `DEL` is read as that character.
pub proof fn law_printable_byte_is_char(c: u8, tail: Seq<u8>)
    requires
        0x20 <= c < 0x7f,
    ensures
        parse_step(seq![c] + tail) == Some(
            (Some(Event::Key(plain_key(KeyCode::Char(c as char)))), 1int),
        ),
{
    assert((seq![c] + tail)[0] == c);
}

/// What the parser keeps back is always an incomplete sequence: parsing
/// it on its own yields nothing until more bytes arrive.
pub proof fn law_pending_is_incomplete(b: Seq<u8>)
    ensures
        parse_step(parse_events(b).1) is None,
    decreases b.len(),
{
    lemma_parse_step_bounds(b);
    match parse_step(b) {
        None => {},
        Some((e, n)) => {
            law_pending_is_incomplete(b.subrange(n, b.len() as int));
        },
    }
}


/// `b` ends with `ESC O`, which reads as a focus-out report on its own but
/// may begin an `F1`..`F4` key once more bytes arrive.
pub open spec fn ends_with_esc_o(b: Seq<u8>) -> bool {
    b.len() >= 2 && b[b.len() - 2] == 0x1b && b[b.len() - 1] == 0x4f
}

proof fn lemma_first_final_extend(s: Seq<u8>, b: Seq<u8>, i: int)
    requires
        0 <= i,
        first_final_from(s, i) < s.len(),
    ensures
        first_final_from(s + b, i) == first_final_from(s, i),
    decreases s.len() - i,
{
    assert((s + b)[i] == s[i]);
    if !is_final_byte(s[i]) {
        lemma_first_final_extend(s, b, i + 1);
    }
}

proof fn lemma_step_extend(s: Seq<u8>, b: Seq<u8>)
    requires
        parse_step(s) is Some,
        !ends_with_esc_o(s),
    ensures
        parse_step(s + b) == parse_step(s),
{
    let t = s + b;
    assert(t[0] == s[0]);
    if s[0] == 0x1b {
        assert(t[1] == s[1]);
        if s[1] == 0x5b {
            assert(s.len() >= 3);
            lemma_first_final(s, 2);
            let i = first_final_from(s, 2);
            assert(i < s.len());
            lemma_first_final_extend(s, b, 2);
            assert(t[i] == s[i]);
            assert(t.subrange(2, i) =~= s.subrange(2, i));
        } else if s[1] == 0x4f && s.len() >= 3 {
            assert(t[2] == s[2]);
        }
    }
}

/// Feeding bytes in two parts gives the same events, and leaves the same
/// bytes pending, as feeding them at once, unless what the first part leaves
/// to parse ends with `ESC O` (there the first part reads a focus-out report
/// where the whole reads an `F1`..`F4` key). `s` is what the first part
/// leaves to parse: the parser's pending bytes followed by that part.
pub proof fn law_feed_in_parts(s: Seq<u8>, b: Seq<u8>)
    requires
        !ends_with_esc_o(s),
    ensures
        parse_events(s + b) == (
            parse_events(s).0 + parse_events(parse_events(s).1 + b).0,
            parse_events(parse_events(s).1 + b).1,
        ),
    decreases s.len(),
{
    lemma_parse_step_bounds(s);
    match parse_step(s) {
        None => {
            assert(parse_events(s).0 + parse_events(s + b).0 =~= parse_events(s + b).0);
        },
        Some((e, n)) => {
            lemma_step_extend(s, b);
            let r = s.subrange(n, s.len() as int);
            assert((s + b).subrange(n, (s + b).len() as int) =~= r + b);
            assert(!ends_with_esc_o(r)) by {
                if r.len() >= 2 {
                    assert(r[r.len() - 2] == s[s.len() - 2]);
                    assert(r[r.len() - 1] == s[s.len() - 1]);
                }
            }
            law_feed_in_parts(r, b);
            let q = parse_events(parse_events(r).1 + b).0;
            assert(opt_seq(e) + (parse_events(r).0 + q) =~= (opt_seq(e) + parse_events(r).0) + q);
        },
    }
}


/// The bytes of `CSI params ~`.
pub open spec fn csi_tilde(params: Seq<u8>) -> Seq<u8> {
    seq![0x1bu8, 0x5bu8] + params + seq![0x7eu8]
}

/// A step that reads the plain key `k` from the first `n` bytes.
pub open spec fn key_read(k: KeyCode, n: int) -> Option<(Option<Event>, int)> {
    Some((Some(Event::Key(Key { code: k, ctrl: false, alt: false, shift: false })), n))
}

proof fn lemma_digits_untrimmed(t: Seq<u8>)
    requires
        1 <= t.len() <= 2,
        forall|i: int| 0 <= i < t.len() ==> 0x30 <= #[trigger] t[i] <= 0x39,
    ensures
        trim_ws(t) == t,
{
    assert(leading_ws_len(t) == 0);
    assert(trim_start_ws(t) == t);
    assert(trailing_ws_len(t) == 0);
    assert(trim_end_ws(t) == t);
}

proof fn lemma_csi_tilde_step(params: Seq<u8>, tail: Seq<u8>)
    requires
        1 <= params.len() <= 2,
        forall|i: int| 0 <= i < params.len() ==> 0x30 <= #[trigger] params[i] <= 0x39,
    ensures
        parse_step(csi_tilde(params) + tail) == Some(
            (
                if tilde_key(params) != KeyCode::Null {
                    Some(Event::Key(plain_key(tilde_key(params))))
                } else {
                    None
                },
                params.len() + 3int,
            ),
        ),
{
    let b = csi_tilde(params) + tail;
    let n = params.len() as int;
    assert(b[0] == 0x1b && b[1] == 0x5b);
    assert forall|i: int| 2 <= i < 2 + n implies !is_final_byte(#[trigger] b[i]) by {
        assert(b[i] == params[i - 2]);
    }
    assert(b[2 + n] == 0x7e);
    assert(first_final_from(b, 2 + n) == 2 + n);
    if n == 2 {
        assert(first_final_from(b, 3) == 2 + n);
    }
    assert(first_final_from(b, 2) == 2 + n);
    assert(b.subrange(2, 2 + n) =~= params);
    lemma_digits_untrimmed(params);
    assert(plain_key(tilde_key(params)) == Key { code: tilde_key(params), ctrl: false, alt: false, shift: false });
}

/// The `CSI n ~` editing keys of xterm/VT terminals, read in one step of
/// the sequence's own bytes whatever follows: `1` and `7` Home, `2` Insert,
/// `3` Delete, `4` and `8` End, `5` PageUp, `6` PageDown.
#[verifier::spinoff_prover]
#[verifier::rlimit(100)]
pub proof fn law_tilde_editing_keys(tail: Seq<u8>)
    ensures
        parse_step(csi_tilde(seq![0x31u8]) + tail) == key_read(KeyCode::Home, 4),
        parse_step(csi_tilde(seq![0x32u8]) + tail) == key_read(KeyCode::Insert, 4),
        parse_step(csi_tilde(seq![0x33u8]) + tail) == key_read(KeyCode::Delete, 4),
        parse_step(csi_tilde(seq![0x34u8]) + tail) == key_read(KeyCode::End, 4),
        parse_step(csi_tilde(seq![0x35u8]) + tail) == key_read(KeyCode::PageUp, 4),
        parse_step(csi_tilde(seq![0x36u8]) + tail) == key_read(KeyCode::PageDown, 4),
        parse_step(csi_tilde(seq![0x37u8]) + tail) == key_read(KeyCode::Home, 4),
        parse_step(csi_tilde(seq![0x38u8]) + tail) == key_read(KeyCode::End, 4),
{
    assert(parse_step(csi_tilde(seq![0x31u8]) + tail) == key_read(KeyCode::Home, 4)) by {
        lemma_csi_tilde_step(seq![0x31u8], tail);
    }
    assert(parse_step(csi_tilde(seq![0x32u8]) + tail) == key_read(KeyCode::Insert, 4)) by {
        lemma_csi_tilde_step(seq![0x32u8], tail);
    }
    assert(parse_step(csi_tilde(seq![0x33u8]) + tail) == key_read(KeyCode::Delete, 4)) by {
        lemma_csi_tilde_step(seq![0x33u8], tail);
    }
    assert(parse_step(csi_tilde(seq![0x34u8]) + tail) == key_read(KeyCode::End, 4)) by {
        lemma_csi_tilde_step(seq![0x34u8], tail);
    }
    assert(parse_step(csi_tilde(seq![0x35u8]) + tail) == key_read(KeyCode::PageUp, 4)) by {
        lemma_csi_tilde_step(seq![0x35u8], tail);
    }
    assert(parse_step(csi_tilde(seq![0x36u8]) + tail) == key_read(KeyCode::PageDown, 4)) by {
        lemma_csi_tilde_step(seq![0x36u8], tail);
    }
    assert(parse_step(csi_tilde(seq![0x37u8]) + tail) == key_read(KeyCode::Home, 4)) by {
        lemma_csi_tilde_step(seq![0x37u8], tail);
    }
    assert(parse_step(csi_tilde(seq![0x38u8]) + tail) == key_read(KeyCode::End, 4)) by {
        lemma_csi_tilde_step(seq![0x38u8], tail);
    }
}

/// The `CSI n ~` function keys of xterm/VT terminals, read in one step of
/// the sequence's own bytes whatever follows: `11`–`15` F1–F5, `17`–`21`
/// F6–F10, `23` and `24` F11 and F12.
#[verifier::spinoff_prover]
#[verifier::rlimit(100)]
pub proof fn law_tilde_function_keys(tail: Seq<u8>)
    ensures
        parse_step(csi_tilde(seq![0x31u8, 0x31u8]) + tail) == key_read(KeyCode::F(1), 5),
        parse_step(csi_tilde(seq![0x31u8, 0x32u8]) + tail) == key_read(KeyCode::F(2), 5),
        parse_step(csi_tilde(seq![0x31u8, 0x33u8]) + tail) == key_read(KeyCode::F(3), 5),
        parse_step(csi_tilde(seq![0x31u8, 0x34u8]) + tail) == key_read(KeyCode::F(4), 5),
        parse_step(csi_tilde(seq![0x31u8, 0x35u8]) + tail) == key_read(KeyCode::F(5), 5),
        parse_step(csi_tilde(seq![0x31u8, 0x37u8]) + tail) == key_read(KeyCode::F(6), 5),
        parse_step(csi_tilde(seq![0x31u8, 0x38u8]) + tail) == key_read(KeyCode::F(7), 5),
        parse_step(csi_tilde(seq![0x31u8, 0x39u8]) + tail) == key_read(KeyCode::F(8), 5),
        parse_step(csi_tilde(seq![0x32u8, 0x30u8]) + tail) == key_read(KeyCode::F(9), 5),
        parse_step(csi_tilde(seq![0x32u8, 0x31u8]) + tail) == key_read(KeyCode::F(10), 5),
        parse_step(csi_tilde(seq![0x32u8, 0x33u8]) + tail) == key_read(KeyCode::F(11), 5),
        parse_step(csi_tilde(seq![0x32u8, 0x34u8]) + tail) == key_read(KeyCode::F(12), 5),
{
    assert(parse_step(csi_tilde(seq![0x31u8, 0x31u8]) + tail) == key_read(KeyCode::F(1), 5)) by {
        lemma_csi_tilde_step(seq![0x31u8, 0x31u8], tail);
    }
    assert(parse_step(csi_tilde(seq![0x31u8, 0x32u8]) + tail) == key_read(KeyCode::F(2), 5)) by {
        lemma_csi_tilde_step(seq![0x31u8, 0x32u8], tail);
    }
    assert(parse_step(csi_tilde(seq![0x31u8, 0x33u8]) + tail) == key_read(KeyCode::F(3), 5)) by {
        lemma_csi_tilde_step(seq![0x31u8, 0x33u8], tail);
    }
    assert(parse_step(csi_tilde(seq![0x31u8, 0x34u8]) + tail) == key_read(KeyCode::F(4), 5)) by {
        lemma_csi_tilde_step(seq![0x31u8, 0x34u8], tail);
    }
    assert(parse_step(csi_tilde(seq![0x31u8, 0x35u8]) + tail) == key_read(KeyCode::F(5), 5)) by {
        lemma_csi_tilde_step(seq![0x31u8, 0x35u8], tail);
    }
    assert(parse_step(csi_tilde(seq![0x31u8, 0x37u8]) + tail) == key_read(KeyCode::F(6), 5)) by {
        lemma_csi_tilde_step(seq![0x31u8, 0x37u8], tail);
    }
    assert(parse_step(csi_tilde(seq![0x31u8, 0x38u8]) + tail) == key_read(KeyCode::F(7), 5)) by {
        lemma_csi_tilde_step(seq![0x31u8, 0x38u8], tail);
    }
    assert(parse_step(csi_tilde(seq![0x31u8, 0x39u8]) + tail) == key_read(KeyCode::F(8), 5)) by {
        lemma_csi_tilde_step(seq![0x31u8, 0x39u8], tail);
    }
    assert(parse_step(csi_tilde(seq![0x32u8, 0x30u8]) + tail) == key_read(KeyCode::F(9), 5)) by {
        lemma_csi_tilde_step(seq![0x32u8, 0x30u8], tail);
    }
    assert(parse_step(csi_tilde(seq![0x32u8, 0x31u8]) + tail) == key_read(KeyCode::F(10), 5)) by {
        lemma_csi_tilde_step(seq![0x32u8, 0x31u8], tail);
    }
    assert(parse_step(csi_tilde(seq![0x32u8, 0x33u8]) + tail) == key_read(KeyCode::F(11), 5)) by {
        lemma_csi_tilde_step(seq![0x32u8, 0x33u8], tail);
    }
    assert(parse_step(csi_tilde(seq![0x32u8, 0x34u8]) + tail) == key_read(KeyCode::F(12), 5)) by {
        lemma_csi_tilde_step(seq![0x32u8, 0x34u8], tail);
    }
}

/// Fed to a parser with nothing pending, `ESC [ 5 ~` gives exactly the
/// PageUp key and `ESC [ 6 ~` exactly the PageDown key, leaving nothing
/// pending.
pub proof fn law_page_keys_fed_alone()
    ensures
        parse_events(csi_tilde(seq![0x35u8])) == (
            seq![Event::Key(Key { code: KeyCode::PageUp, ctrl: false, alt: false, shift: false })],
            Seq::<u8>::empty(),
        ),
        parse_events(csi_tilde(seq![0x36u8])) == (
            seq![Event::Key(Key { code: KeyCode::PageDown, ctrl: false, alt: false, shift: false })],
            Seq::<u8>::empty(),
        ),
{
    law_tilde_editing_keys(Seq::<u8>::empty());
    let a = csi_tilde(seq![0x35u8]);
    let b = csi_tilde(seq![0x36u8]);
    assert(a + Seq::<u8>::empty() =~= a);
    assert(b + Seq::<u8>::empty() =~= b);
    assert(a.len() == 4 && b.len() == 4);
    assert(a.subrange(4, 4) =~= Seq::<u8>::empty());
    assert(b.subrange(4, 4) =~= Seq::<u8>::empty());
    assert(parse_events(Seq::<u8>::empty()) == (Seq::<Event>::empty(), Seq::<u8>::empty()));
    assert(parse_events(a).0 =~= seq![Event::Key(Key { code: KeyCode::PageUp, ctrl: false, alt: false, shift: false })]);
    assert(parse_events(b).0 =~= seq![Event::Key(Key { code: KeyCode::PageDown, ctrl: false, alt: false, shift: false })]);
}


proof fn lemma_csi_letter_step(f: u8, tail: Seq<u8>)
    requires
        0x40 <= f <= 0x7e,
        f != 0x7e,
    ensures
        parse_step(seq![0x1bu8, 0x5bu8, f] + tail) == Some(
            (
                if csi_key(f, Seq::<u8>::empty()) != KeyCode::Null {
                    Some(Event::Key(plain_key(csi_key(f, Seq::<u8>::empty()))))
                } else {
                    None
                },
                3int,
            ),
        ),
{
    let b = seq![0x1bu8, 0x5bu8, f] + tail;
    assert(b[0] == 0x1b && b[1] == 0x5b && b[2] == f);
    assert(first_final_from(b, 2) == 2);
    assert(b.subrange(2, 2) =~= Seq::<u8>::empty());
}

/// The cursor keys of xterm/VT terminals, `ESC [` followed by `A`, `B`,
/// `C`, `D`, `H` or `F`: Up, Down, Right, Left, Home and End, read in one
/// step of three bytes whatever follows.
#[verifier::spinoff_prover]
pub proof fn law_cursor_keys(tail: Seq<u8>)
    ensures
        parse_step(seq![0x1bu8, 0x5bu8, 0x41u8] + tail) == key_read(KeyCode::Up, 3),
        parse_step(seq![0x1bu8, 0x5bu8, 0x42u8] + tail) == key_read(KeyCode::Down, 3),
        parse_step(seq![0x1bu8, 0x5bu8, 0x43u8] + tail) == key_read(KeyCode::Right, 3),
        parse_step(seq![0x1bu8, 0x5bu8, 0x44u8] + tail) == key_read(KeyCode::Left, 3),
        parse_step(seq![0x1bu8, 0x5bu8, 0x48u8] + tail) == key_read(KeyCode::Home, 3),
        parse_step(seq![0x1bu8, 0x5bu8, 0x46u8] + tail) == key_read(KeyCode::End, 3),
{
    lemma_csi_letter_step(0x41, tail);
    lemma_csi_letter_step(0x42, tail);
    lemma_csi_letter_step(0x43, tail);
    lemma_csi_letter_step(0x44, tail);
    lemma_csi_letter_step(0x48, tail);
    lemma_csi_letter_step(0x46, tail);
}

/// `ESC O P` to `ESC O S` are F1 to F4; `ESC I` is a focus-in report and
/// `ESC O` followed by anything else a focus-out report (two bytes).
pub proof fn law_ss3_and_focus(tail: Seq<u8>, c: u8)
    ensures
        parse_step(seq![0x1bu8, 0x4fu8, 0x50u8] + tail) == key_read(KeyCode::F(1), 3),
        parse_step(seq![0x1bu8, 0x4fu8, 0x51u8] + tail) == key_read(KeyCode::F(2), 3),
        parse_step(seq![0x1bu8, 0x4fu8, 0x52u8] + tail) == key_read(KeyCode::F(3), 3),
        parse_step(seq![0x1bu8, 0x4fu8, 0x53u8] + tail) == key_read(KeyCode::F(4), 3),
        parse_step(seq![0x1bu8, 0x49u8] + tail) == Some((Some(Event::Focus(true)), 2int)),
        !(0x50 <= c <= 0x53) ==> parse_step(seq![0x1bu8, 0x4fu8, c] + tail) == Some((Some(Event::Focus(false)), 2int)),
{
    let b1 = seq![0x1bu8, 0x4fu8, 0x50u8] + tail;
    assert(b1[0] == 0x1b && b1[1] == 0x4f && b1[2] == 0x50);
    let b2 = seq![0x1bu8, 0x4fu8, 0x51u8] + tail;
    assert(b2[0] == 0x1b && b2[1] == 0x4f && b2[2] == 0x51);
    let b3 = seq![0x1bu8, 0x4fu8, 0x52u8] + tail;
    assert(b3[0] == 0x1b && b3[1] == 0x4f && b3[2] == 0x52);
    let b4 = seq![0x1bu8, 0x4fu8, 0x53u8] + tail;
    assert(b4[0] == 0x1b && b4[1] == 0x4f && b4[2] == 0x53);
    let b5 = seq![0x1bu8, 0x49u8] + tail;
    assert(b5[0] == 0x1b && b5[1] == 0x49);
    let b6 = seq![0x1bu8, 0x4fu8, c] + tail;
    assert(b6[0] == 0x1b && b6[1] == 0x4f && b6[2] == c);
}

/// Single control bytes: carriage return and line feed are Enter, `DEL`
/// and backspace are Backspace, `TAB` is Tab, and any other byte below
/// `0x20` (except `ESC`) is its letter with Ctrl, `0x01` being Ctrl-A; each
/// is read alone, whatever follows.
pub proof fn law_control_bytes(c: u8, tail: Seq<u8>)
    ensures
        (c == 0x0d || c == 0x0a) ==> parse_step(seq![c] + tail) == key_read(KeyCode::Enter, 1),
        (c == 0x7f || c == 0x08) ==> parse_step(seq![c] + tail) == key_read(KeyCode::Backspace, 1),
        c == 0x09 ==> parse_step(seq![c] + tail) == key_read(KeyCode::Tab, 1),
        (1 <= c <= 0x1a && c != 0x08 && c != 0x09 && c != 0x0a && c != 0x0d) ==> parse_step(seq![c] + tail) == Some(
            (Some(Event::Key(Key { code: KeyCode::Char((c + 0x60) as char), ctrl: true, alt: false, shift: false })), 1int),
        ),
{
    assert((seq![c] + tail)[0] == c);
}

/// No `;` among the bytes of `u`.
pub open spec fn no_semis(u: Seq<u8>) -> bool {
    forall|i: int| 0 <= i < u.len() ==> #[trigger] u[i] != 0x3b
}

proof fn lemma_split_semis_extend(p: Seq<u8>, u: Seq<u8>)
    requires
        no_semis(u),
    ensures
        split_semis(p).len() >= 1,
        split_semis(p + u) == split_semis(p).update(
            split_semis(p).len() - 1,
            split_semis(p).last() + u,
        ),
    decreases u.len(),
{
    lemma_split_semis_nonempty(p);
    if u.len() == 0 {
        assert(p + u =~= p);
        assert(split_semis(p).last() + u =~= split_semis(p).last());
        assert(split_semis(p).update(split_semis(p).len() - 1, split_semis(p).last()) =~= split_semis(p));
    } else {
        let v = u.drop_last();
        assert forall|i: int| 0 <= i < v.len() implies #[trigger] v[i] != 0x3b by {
            assert(v[i] == u[i]);
        }
        lemma_split_semis_extend(p, v);
        assert((p + u).drop_last() =~= p + v);
        assert((p + u).last() == u.last());
        assert(u.last() != 0x3b);
        let s = split_semis(p);
        let sv = split_semis(p + v);
        assert(sv.last() == s.last() + v);
        assert(sv.last().push(u.last()) =~= s.last() + u);
        assert(sv.update(sv.len() - 1, sv.last().push(u.last())) =~= s.update(s.len() - 1, s.last() + u));
    }
}

proof fn lemma_split_semis_nonempty(t: Seq<u8>)
    ensures
        split_semis(t).len() >= 1,
    decreases t.len(),
{
    if t.len() > 0 {
        lemma_split_semis_nonempty(t.drop_last());
    }
}

proof fn lemma_split_three(a: Seq<u8>, b: Seq<u8>, c: Seq<u8>)
    requires
        no_semis(a),
        no_semis(b),
        no_semis(c),
    ensures
        split_semis(a + seq![0x3bu8] + b + seq![0x3bu8] + c) == seq![a, b, c],
{
    let e = Seq::<u8>::empty();
    lemma_split_semis_extend(e, a);
    assert(e + a =~= a);
    assert(split_semis(e) == seq![e]);
    assert(split_semis(a) =~= seq![a]);
    let a1 = a + seq![0x3bu8];
    assert(a1.drop_last() =~= a);
    assert(split_semis(a1) =~= seq![a, e]);
    lemma_split_semis_extend(a1, b);
    assert(split_semis(a1 + b) =~= seq![a, b]);
    let b1 = a1 + b + seq![0x3bu8];
    assert(b1.drop_last() =~= a1 + b);
    assert(split_semis(b1) =~= seq![a, b, e]);
    lemma_split_semis_extend(b1, c);
    assert(split_semis(b1 + c) =~= seq![a, b, c]);
}

/// Coordinates as reported (from 1) turned into cell positions (from 0).
pub open spec fn from_one(v: int) -> u16 {
    (if v >= 1 {
        v - 1
    } else {
        0
    }) as u16
}

/// An SGR mouse report `ESC [ < b ; x ; y M` (or `m` for a release), with
/// decimal fields that fit, is read in one step of its own bytes, whatever
/// follows, as the mouse event at column `x - 1`, row `y - 1` (the report
/// counts from 1): button `b & 3` being 0, 1, 2 for left, middle, right,
/// `64` and `65` the wheel up and down, `+ 32` a motion, and `m` a release.
pub proof fn law_sgr_mouse_report(bs: Seq<u8>, xs: Seq<u8>, ys: Seq<u8>, f: u8, tail: Seq<u8>)
    requires
        bs.len() > 0 && all_digits(bs) && dec_value(bs) <= u32::MAX,
        xs.len() > 0 && all_digits(xs) && dec_value(xs) <= u16::MAX,
        ys.len() > 0 && all_digits(ys) && dec_value(ys) <= u16::MAX,
        f == 0x4d || f == 0x6d,
    ensures
        ({
            let body = seq![0x3cu8] + bs + seq![0x3bu8] + xs + seq![0x3bu8] + ys;
            let b = dec_value(bs) as u32;
            parse_step(seq![0x1bu8, 0x5bu8] + body + seq![f] + tail) == Some(
                (
                    Some(
                        Event::Mouse(
                            Mouse {
                                x: from_one(dec_value(xs)),
                                y: from_one(dec_value(ys)),
                                button: mouse_button_of(b),
                                kind: mouse_kind_of(b, f),
                            },
                        ),
                    ),
                    body.len() + 3int,
                ),
            )
        }),
        mouse_button_of(0) == MouseButton::Left,
        mouse_button_of(1) == MouseButton::Middle,
        mouse_button_of(2) == MouseButton::Right,
        mouse_button_of(64) == MouseButton::WheelUp,
        mouse_button_of(65) == MouseButton::WheelDown,
        mouse_kind_of(0, 0x4d) == MouseKind::Press,
        mouse_kind_of(32, 0x4d) == MouseKind::Motion,
        mouse_kind_of(0, 0x6d) == MouseKind::Release,
{
    let inner = bs + seq![0x3bu8] + xs + seq![0x3bu8] + ys;
    let body = seq![0x3cu8] + bs + seq![0x3bu8] + xs + seq![0x3bu8] + ys;
    assert(body =~= seq![0x3cu8] + inner);
    let t = seq![0x1bu8, 0x5bu8] + body + seq![f] + tail;
    let n = body.len() as int;
    assert(t[0] == 0x1b && t[1] == 0x5b);
    assert forall|i: int| 0 <= i < body.len() implies !is_final_byte(#[trigger] body[i]) by {
        if i == 0 {
        } else if i <= bs.len() {
            assert(body[i] == bs[i - 1]);
        } else if i == bs.len() + 1 {
        } else if i <= bs.len() + 1 + xs.len() {
            assert(body[i] == xs[i - bs.len() - 2]);
        } else if i == bs.len() + 2 + xs.len() {
        } else {
            assert(body[i] == ys[i - bs.len() - xs.len() - 3]);
        }
    }
    assert forall|i: int| 2 <= i < 2 + n implies !is_final_byte(#[trigger] t[i]) by {
        assert(t[i] == body[i - 2]);
    }
    assert(t[2 + n] == f);
    assert forall|j: int| 2 <= j <= 2 + n implies first_final_from(t, j) == 2 + n by {
        lemma_first_final_from_skip(t, j, 2 + n);
    }
    assert(t.subrange(2, 2 + n) =~= body);
    assert(body[0] == 0x3c);
    assert(inner[0] == bs[0]);
    assert(strip_lt(body) == strip_lt(body.drop_first()));
    assert(body.drop_first() =~= inner);
    assert(strip_lt(inner) == inner);
    assert(no_semis(bs)) by {
        assert forall|i: int| 0 <= i < bs.len() implies #[trigger] bs[i] != 0x3b by {
            assert(0x30 <= bs[i] <= 0x39);
        }
    }
    assert(no_semis(xs)) by {
        assert forall|i: int| 0 <= i < xs.len() implies #[trigger] xs[i] != 0x3b by {
            assert(0x30 <= xs[i] <= 0x39);
        }
    }
    assert(no_semis(ys)) by {
        assert forall|i: int| 0 <= i < ys.len() implies #[trigger] ys[i] != 0x3b by {
            assert(0x30 <= ys[i] <= 0x39);
        }
    }
    lemma_split_three(bs, xs, ys);
    assert(without_plus(bs) == bs);
    assert(without_plus(xs) == xs);
    assert(without_plus(ys) == ys);
    assert(mouse_button_of(64) == MouseButton::WheelUp) by {
        assert(64u32 & 64 != 0 && 64u32 & 1 == 0) by (bit_vector);
    }
    assert(mouse_button_of(65) == MouseButton::WheelDown) by {
        assert(65u32 & 64 != 0 && 65u32 & 1 != 0) by (bit_vector);
    }
    assert(mouse_button_of(0) == MouseButton::Left) by {
        assert(0u32 & 64 == 0 && 0u32 & 3 == 0) by (bit_vector);
    }
    assert(mouse_button_of(1) == MouseButton::Middle) by {
        assert(1u32 & 64 == 0 && 1u32 & 3 == 1) by (bit_vector);
    }
    assert(mouse_button_of(2) == MouseButton::Right) by {
        assert(2u32 & 64 == 0 && 2u32 & 3 == 2) by (bit_vector);
    }
    assert(mouse_kind_of(32, 0x4d) == MouseKind::Motion) by {
        assert(32u32 & 32 != 0) by (bit_vector);
    }
    assert(mouse_kind_of(0, 0x4d) == MouseKind::Press) by {
        assert(0u32 & 32 == 0) by (bit_vector);
    }
}

proof fn lemma_first_final_from_skip(t: Seq<u8>, j: int, k: int)
    requires
        0 <= j <= k < t.len(),
        is_final_byte(t[k]),
        forall|i: int| j <= i < k ==> !is_final_byte(#[trigger] t[i]),
    ensures
        first_final_from(t, j) == k,
    decreases k - j,
{
    if j < k {
        lemma_first_final_from_skip(t, j + 1, k);
    }
}
} // verus!
