//! Terminal control: which modes are on, the escape sequences that switch
//! them, the terminal size, and the settings that put a tty in raw mode.
//!
//! [`Term`] decides what is sent to the terminal and keeps track of the
//! modes; the caller does the writing and the operating system calls.
//! Switching a mode on is done in two steps, as the mode only counts as on
//! once its sequence reached the terminal: [`Term::enable_alt`] and
//! [`Term::enable_mouse`] hand out the sequence to send, and the caller
//! reports how the write went ([`Term::alt_written`],
//! [`Term::mouse_written`]). What is sent whatever the outcome (switching
//! modes off, text, clearing) is queued; the caller writes what
//! [`Term::take_output`] returns. The caller also performs the tty calls that
//! [`Term::enable_raw`] and [`Term::disable_raw`] ask for.
#![allow(non_snake_case, non_camel_case_types)]
use vstd::prelude::*;
use crate::layout::Rect;

verus! {

/// Terminal attribute flags.
pub type Tcflag = u32;

/// Number of control characters in [`Termios`].
pub const NCCS: usize = 32;

pub const IGNBRK: Tcflag = 0o000001;
pub const BRKINT: Tcflag = 0o000002;
pub const PARMRK: Tcflag = 0o000010;
pub const INPCK: Tcflag = 0o000020;
pub const ISTRIP: Tcflag = 0o000020;
pub const INLCR: Tcflag = 0o000100;
pub const IGNCR: Tcflag = 0o000200;
pub const ICRNL: Tcflag = 0o000400;
pub const IXON: Tcflag = 0o002000;
pub const OPOST: Tcflag = 0o000001;
pub const CSIZE: Tcflag = 0o000060;
pub const CS8: Tcflag = 0o000060;
pub const ISIG: Tcflag = 0o000001;
pub const ICANON: Tcflag = 0o000002;
pub const ECHO: Tcflag = 0o000010;
pub const ECHONL: Tcflag = 0o000040;
pub const IEXTEN: Tcflag = 0o100000;

/// Index of the minimum-characters slot in [`Termios::cc`].
pub const VMIN: usize = 6;

/// Index of the timeout slot in [`Termios::cc`].
pub const VTIME: usize = 5;

/// A tty's settings, as `tcgetattr` reports them.
#[derive(Clone, Copy)]
pub struct Termios {
    pub iflag: Tcflag,
    pub oflag: Tcflag,
    pub cflag: Tcflag,
    pub lflag: Tcflag,
    pub line: u8,
    pub cc: [u8; NCCS],
    pub ispeed: Tcflag,
    pub ospeed: Tcflag,
}

/// A tty's size, as the `TIOCGWINSZ` request reports it.
#[derive(Clone, Copy, Debug, PartialEq, Eq, Structural)]
pub struct Winsize {
    pub ws_row: u16,
    pub ws_col: u16,
    pub ws_xpixel: u16,
    pub ws_ypixel: u16,
}

/// A console cell position.
#[derive(Clone, Copy, Debug, PartialEq, Eq, Structural)]
pub struct COORD {
    pub x: i16,
    pub y: i16,
}

/// A console rectangle, edges inclusive.
#[derive(Clone, Copy, Debug, PartialEq, Eq, Structural)]
pub struct SMALL_RECT {
    pub left: i16,
    pub top: i16,
    pub right: i16,
    pub bottom: i16,
}

/// What a console reports about its screen buffer.
#[derive(Clone, Copy, Debug, PartialEq, Eq, Structural)]
pub struct CONSOLE_SCREEN_BUFFER_INFO {
    pub dwSize: COORD,
    pub dwCursorPosition: COORD,
    pub wAttributes: u16,
    pub srWindow: SMALL_RECT,
    pub dwMaximumWindowSize: COORD,
}

/// The input flags raw mode clears.
pub open spec fn raw_iflags() -> u32 {
    IGNBRK | BRKINT | PARMRK | ISTRIP | INLCR | IGNCR | ICRNL | IXON
}

/// The local flags raw mode clears.
pub open spec fn raw_lflags() -> u32 {
    ECHO | ECHONL | ICANON | ISIG | IEXTEN
}

/// `t` switched to raw mode: no break, parity or newline translation on
/// input, no output processing, 8-bit characters, no echo, no line editing,
/// no signals; reads return after one byte with no timeout.
pub fn raw_mode(t: &Termios) -> (r: Termios)
    ensures
        r.iflag == t.iflag & !raw_iflags(),
        r.oflag == t.oflag & !OPOST,
        r.cflag == (t.cflag & !CSIZE) | CS8,
        r.lflag == t.lflag & !raw_lflags(),
        r.line == t.line,
        r.ispeed == t.ispeed,
        r.ospeed == t.ospeed,
        r.cc@ == t.cc@.update(VMIN as int, 1u8).update(VTIME as int, 0u8),
        r.lflag & ECHO == 0,
        r.lflag & ICANON == 0,
        r.lflag & ISIG == 0,
{
    let mut cc = t.cc;
    cc[VMIN] = 1;
    cc[VTIME] = 0;
    let iflag = t.iflag & !(IGNBRK | BRKINT | PARMRK | ISTRIP | INLCR | IGNCR | ICRNL | IXON);
    let lflag = t.lflag & !(ECHO | ECHONL | ICANON | ISIG | IEXTEN);
    let l = t.lflag;
    assert(lflag & ECHO == 0 && lflag & ICANON == 0 && lflag & ISIG == 0) by (bit_vector)
        requires
            lflag == l & !(0o000010u32 | 0o000040u32 | 0o000002u32 | 0o000001u32 | 0o100000u32),
    ;
    Termios {
        iflag,
        oflag: t.oflag & !OPOST,
        cflag: t.cflag & !CSIZE | CS8,
        lflag,
        line: t.line,
        cc,
        ispeed: t.ispeed,
        ospeed: t.ospeed,
    }
}

/// The size `(cols, rows)` a `TIOCGWINSZ` request gives: its columns and
/// rows when it succeeded (`ok`) with some columns, else 80×24.
pub fn winsize_dims(ok: bool, ws: &Winsize) -> (r: (u16, u16))
    ensures
        r == if ok && ws.ws_col > 0 {
            (ws.ws_col, ws.ws_row)
        } else {
            (80u16, 24u16)
        },
{
    if ok && ws.ws_col > 0 {
        (ws.ws_col, ws.ws_row)
    } else {
        (80, 24)
    }
}

/// Cells from `lo` to `hi` inclusive, at least one.
pub open spec fn span(lo: i16, hi: i16) -> int {
    if hi - lo + 1 >= 1 {
        hi - lo + 1
    } else {
        1
    }
}

/// The size `(cols, rows)` of a console's visible window: its span when
/// the query succeeded (`ok`), else 80×24.
pub fn console_dims(ok: bool, info: &CONSOLE_SCREEN_BUFFER_INFO) -> (r: (u16, u16))
    requires
        ok ==> i16::MIN <= info.srWindow.right - info.srWindow.left < i16::MAX,
        ok ==> i16::MIN <= info.srWindow.bottom - info.srWindow.top < i16::MAX,
    ensures
        r == if ok {
            (span(info.srWindow.left, info.srWindow.right) as u16, span(info.srWindow.top, info.srWindow.bottom) as u16)
        } else {
            (80u16, 24u16)
        },
{
    if ok {
        let win = info.srWindow;
        let w = win.right - win.left + 1;
        let h = win.bottom - win.top + 1;
        let w = if w >= 1 {
            w
        } else {
            1
        };
        let h = if h >= 1 {
            h
        } else {
            1
        };
        (w as u16, h as u16)
    } else {
        (80, 24)
    }
}

/// Switch to the alternate screen, hide the cursor, clear and home.
pub open spec fn alt_on() -> Seq<char> {
    seq!['\x1b', '[', '?', '1', '0', '4', '9', 'h', '\x1b', '[', '?', '2', '5', 'l', '\x1b', '[', '2', 'J', '\x1b', '[', 'H']
}

/// Show the cursor and leave the alternate screen.
pub open spec fn alt_off() -> Seq<char> {
    seq!['\x1b', '[', '?', '2', '5', 'h', '\x1b', '[', '?', '1', '0', '4', '9', 'l']
}

/// SGR mouse reporting, all motion tracking and focus events on.
pub open spec fn mouse_on() -> Seq<char> {
    seq!['\x1b', '[', '?', '1', '0', '0', '6', 'h', '\x1b', '[', '?', '1', '0', '0', '3', 'h', '\x1b', '[', '?', '1', '0', '0', '4', 'h']
}

/// Focus events, motion tracking and SGR reporting off.
pub open spec fn mouse_off() -> Seq<char> {
    seq!['\x1b', '[', '?', '1', '0', '0', '4', 'l', '\x1b', '[', '?', '1', '0', '0', '3', 'l', '\x1b', '[', '?', '1', '0', '0', '6', 'l']
}

/// Clear the screen and home the cursor.
pub open spec fn clear_seq() -> Seq<char> {
    seq!['\x1b', '[', '2', 'J', '\x1b', '[', 'H']
}

/// A handle to the terminal display: its modes, its size, and the output
/// waiting to be written.
pub struct Term {
    raw_enabled: bool,
    alt_enabled: bool,
    mouse_enabled: bool,
    pub width: u16,
    pub height: u16,
    out: String,
}

/// The modes of a [`Term`] and its pending output.
pub ghost struct TermView {
    pub raw: bool,
    pub alt: bool,
    pub mouse: bool,
    pub width: u16,
    pub height: u16,
    pub pending: Seq<char>,
}

impl TermView {
    /// Mouse reporting on, once its sequence has reached the terminal.
    pub open spec fn with_mouse(self) -> TermView {
        TermView { mouse: true, ..self }
    }

    /// Mouse reporting switched off (sending its sequence unless it already is).
    pub open spec fn without_mouse(self) -> TermView {
        if !self.mouse {
            self
        } else {
            TermView { mouse: false, pending: self.pending + mouse_off(), ..self }
        }
    }

    /// The alternate screen entered, then the mouse switched on, both
    /// sequences having reached the terminal.
    pub open spec fn with_alt(self) -> TermView {
        TermView { alt: true, ..self }.with_mouse()
    }

    /// Unless already off: the mouse switched off, then the alternate screen left.
    pub open spec fn without_alt(self) -> TermView {
        if !self.alt {
            self
        } else {
            let d = self.without_mouse();
            TermView { alt: false, pending: d.pending + alt_off(), ..d }
        }
    }
}

/// Entering the alternate screen (its writes succeeding) and leaving it
/// again switches the screen and the mouse off, and queues the sequences
/// that undo it: the mouse's first, then the screen's.
pub proof fn law_alt_round_trip(v: TermView)
    requires
        !v.alt,
    ensures
        v.with_alt().without_alt() == (TermView {
            alt: false,
            mouse: false,
            pending: v.pending + mouse_off() + alt_off(),
            ..v
        }),
{
    let p = v.with_alt().without_alt().pending;
    assert(p =~= v.pending + mouse_off() + alt_off());
}

impl View for Term {
    type V = TermView;

    closed spec fn view(&self) -> TermView {
        TermView {
            raw: self.raw_enabled,
            alt: self.alt_enabled,
            mouse: self.mouse_enabled,
            width: self.width,
            height: self.height,
            pending: self.out@,
        }
    }
}

impl Term {
    /// A terminal of the measured size, with every mode off.
    pub fn new(size: (u16, u16)) -> (t: Term)
        ensures
            t@ == (TermView { raw: false, alt: false, mouse: false, width: size.0, height: size.1, pending: seq![] }),
    {
        Term {
            raw_enabled: false,
            alt_enabled: false,
            mouse_enabled: false,
            width: size.0,
            height: size.1,
            out: String::new(),
        }
    }

    /// Enter raw mode. Returns whether the tty must be switched now (with
    /// [`raw_mode`]); it is already raw otherwise.
    pub fn enable_raw(&mut self) -> (apply: bool)
        ensures
            apply == !old(self)@.raw,
            final(self)@ == (TermView { raw: true, ..old(self)@ }),
    {
        if self.raw_enabled {
            return false;
        }
        self.raw_enabled = true;
        true
    }

    /// Leave raw mode. Returns whether the saved tty settings must be restored now.
    pub fn disable_raw(&mut self) -> (apply: bool)
        ensures
            apply == old(self)@.raw,
            final(self)@ == (TermView { raw: false, ..old(self)@ }),
    {
        if !self.raw_enabled {
            return false;
        }
        self.raw_enabled = false;
        true
    }

    /// Queue `s` for the terminal.
    pub fn write_str(&mut self, s: &str)
        ensures
            final(self)@ == (TermView { pending: old(self)@.pending + s@, ..old(self)@ }),
    {
        self.out.append(s);
    }

    /// Everything queued so far, leaving nothing queued.
    pub fn take_output(&mut self) -> (s: String)
        ensures
            s@ == old(self)@.pending,
            final(self)@ == (TermView { pending: seq![], ..old(self)@ }),
    {
        let mut s = String::new();
        std::mem::swap(&mut s, &mut self.out);
        s
    }

    /// Enable SGR mouse tracking and focus events: the sequence to send, or
    /// `None` when they are on already. Nothing changes until the write is
    /// reported with [`Term::mouse_written`].
    pub fn enable_mouse(&self) -> (send: Option<String>)
        ensures
            send is None <==> self@.mouse,
            send matches Some(s) ==> s@ == mouse_on(),
    {
        if self.mouse_enabled {
            return None;
        }
        proof {
            reveal_strlit("\x1b[?1006h\x1b[?1003h\x1b[?1004h");
            assert("\x1b[?1006h\x1b[?1003h\x1b[?1004h"@ =~= mouse_on());
        }
        Some("\x1b[?1006h\x1b[?1003h\x1b[?1004h".to_string())
    }

    /// How writing the sequence from [`Term::enable_mouse`] went: when it
    /// reached the terminal, mouse reporting is on; when the write failed,
    /// nothing changes.
    pub fn mouse_written(&mut self, ok: bool)
        ensures
            final(self)@ == (if ok {
                old(self)@.with_mouse()
            } else {
                old(self)@
            }),
    {
        if ok {
            self.mouse_enabled = true;
        }
    }

    /// Disable mouse tracking and focus events.
    pub fn disable_mouse(&mut self)
        ensures
            final(self)@ == old(self)@.without_mouse(),
    {
        if !self.mouse_enabled {
            return ;
        }
        proof {
            reveal_strlit("\x1b[?1004l\x1b[?1003l\x1b[?1006l");
            assert("\x1b[?1004l\x1b[?1003l\x1b[?1006l"@ =~= mouse_off());
        }
        self.write_str("\x1b[?1004l\x1b[?1003l\x1b[?1006l");
        self.mouse_enabled = false;
    }

    /// Switch to the alternate screen buffer and hide the cursor: the
    /// sequence to send. Nothing changes until the write is reported with
    /// [`Term::alt_written`].
    pub fn enable_alt(&self) -> (send: String)
        ensures
            send@ == alt_on(),
    {
        proof {
            reveal_strlit("\x1b[?1049h\x1b[?25l\x1b[2J\x1b[H");
            assert("\x1b[?1049h\x1b[?25l\x1b[2J\x1b[H"@ =~= alt_on());
        }
        "\x1b[?1049h\x1b[?25l\x1b[2J\x1b[H".to_string()
    }

    /// How writing the sequence from [`Term::enable_alt`] went. When it
    /// reached the terminal, the alternate screen is on and the mouse is to
    /// be enabled next: the mouse sequence still to send is returned (as
    /// [`Term::enable_mouse`] gives it). When the write failed, nothing
    /// changes and nothing follows.
    pub fn alt_written(&mut self, ok: bool) -> (next: Option<String>)
        ensures
            final(self)@ == (if ok {
                TermView { alt: true, ..old(self)@ }
            } else {
                old(self)@
            }),
            next is None <==> (!ok || old(self)@.mouse),
            next matches Some(s) ==> s@ == mouse_on(),
    {
        if !ok {
            return None;
        }
        self.alt_enabled = true;
        self.enable_mouse()
    }

    /// Leave the alternate screen and show the cursor (disabling the mouse first).
    pub fn disable_alt(&mut self)
        ensures
            final(self)@ == old(self)@.without_alt(),
    {
        if !self.alt_enabled {
            return ;
        }
        self.disable_mouse();
        proof {
            reveal_strlit("\x1b[?25h\x1b[?1049l");
            assert("\x1b[?25h\x1b[?1049l"@ =~= alt_off());
        }
        self.write_str("\x1b[?25h\x1b[?1049l");
        self.alt_enabled = false;
    }

    /// Current size in `(cols, rows)`.
    pub fn size(&self) -> (r: (u16, u16))
        ensures
            r == (self@.width, self@.height),
    {
        (self.width, self.height)
    }

    /// Take a new measurement of the size.
    pub fn refresh_size(&mut self, size: (u16, u16))
        ensures
            final(self)@ == (TermView { width: size.0, height: size.1, ..old(self)@ }),
    {
        self.width = size.0;
        self.height = size.1;
    }

    /// The full-screen rect.
    pub fn rect(&self) -> (r: Rect)
        ensures
            r == (Rect { x: 0, y: 0, w: self@.width, h: self@.height }),
    {
        Rect::new(0, 0, self.width, self.height)
    }

    /// Clear the visible screen.
    pub fn clear_screen(&mut self)
        ensures
            final(self)@ == (TermView { pending: old(self)@.pending + clear_seq(), ..old(self)@ }),
    {
        proof {
            reveal_strlit("\x1b[2J\x1b[H");
            assert("\x1b[2J\x1b[H"@ =~= clear_seq());
        }
        self.write_str("\x1b[2J\x1b[H");
    }

    /// Restore the terminal when done with it: mouse off, alternate screen
    /// left, raw mode left. Returns whether the saved tty settings must be
    /// restored now.
    pub fn restore(&mut self) -> (apply: bool)
        ensures
            apply == old(self)@.raw,
            final(self)@ == (TermView {
                raw: false,
                alt: old(self)@.alt,
                mouse: false,
                pending: old(self)@.pending + (if old(self)@.mouse {
                    mouse_off()
                } else {
                    seq![]
                }) + (if old(self)@.alt {
                    alt_off()
                } else {
                    seq![]
                }),
                ..old(self)@
            }),
    {
        let ghost start = self@.pending;
        if self.mouse_enabled {
            self.disable_mouse();
        }
        let ghost mid = self@.pending;
        assert(mid =~= start + (if old(self)@.mouse {
            mouse_off()
        } else {
            seq![]
        }));
        if self.alt_enabled {
            proof {
                reveal_strlit("\x1b[?25h\x1b[?1049l");
                assert("\x1b[?25h\x1b[?1049l"@ =~= alt_off());
            }
            self.write_str("\x1b[?25h\x1b[?1049l");
        }
        assert(self@.pending =~= mid + (if old(self)@.alt {
            alt_off()
        } else {
            seq![]
        }));
        self.disable_raw()
    }
}

} // verus!
