use ratatui_plus::app::{AppState, Flow, Step};
use ratatui_plus::color::{Color, ColorLevel};
use ratatui_plus::event::{Event, Key, KeyCode};
use ratatui_plus::layout::Rect;
use ratatui_plus::style::Style;
use ratatui_plus::term::{
    console_dims, raw_mode, winsize_dims, Term, Termios, Winsize, COORD, CONSOLE_SCREEN_BUFFER_INFO,
    SMALL_RECT,
};

#[test]
fn runtime_ctrl_c_quits() {
    let mut s = AppState::new(10, 2);
    let ev = Event::Key(Key::char('c').ctrl(true));
    assert_eq!(s.route(ev, (10, 2)), Step::Quit);
    assert_ne!(Flow::Quit, Flow::Continue);
}

#[test]
fn runtime_tab_cycles_focus() {
    let mut s = AppState::new(10, 2);
    let tab = Event::Key(Key::new(KeyCode::Tab));
    // no components seen yet: focus stays at 0
    assert_eq!(s.route(tab, (10, 2)), Step::Draw(Event::Tick));
    let f = s.frame(ColorLevel::Rgb);
    assert_eq!(f.focus_count(), 0);
    drop(f);
    let _ = s.finish(Some(3), 5, ColorLevel::Rgb);
    assert_eq!(s.route(tab, (10, 2)), Step::Draw(Event::Tick));
    let f = s.frame(ColorLevel::Rgb);
    assert!(!matches!(f.area, Rect { w: 0, .. }));
    drop(f);
    let _ = s.finish(None, 5, ColorLevel::Rgb);
    // focus went 3 -> 4; one more Tab wraps to 0
    assert_eq!(s.route(tab, (10, 2)), Step::Draw(Event::Tick));
    let mut f = s.frame(ColorLevel::Rgb);
    assert!(f.register_focus());
}

#[test]
fn runtime_resize_is_reported() {
    let mut s = AppState::new(10, 2);
    assert_eq!(s.route(Event::Tick, (12, 3)), Step::Draw(Event::Resize(12, 3)));
    assert_eq!(s.size(), (12, 3));
    let a = Event::Key(Key::char('a'));
    assert_eq!(s.route(a, (12, 3)), Step::Draw(a));
}

#[test]
fn runtime_frame_output_then_nothing() {
    let mut s = AppState::new(5, 1);
    {
        let mut f = s.frame(ColorLevel::Rgb);
        f.buf.put(0, 0, 'X', Style::new().fg(Color::Red));
    }
    let out = s.finish(None, 0, ColorLevel::Rgb);
    assert!(out.contains('X'));
    assert!(out.contains("31"));
    {
        let mut f = s.frame(ColorLevel::Rgb);
        f.buf.put(0, 0, 'X', Style::new().fg(Color::Red));
    }
    // the same picture again needs no output
    assert_eq!(s.finish(None, 0, ColorLevel::Rgb), "");
}

#[test]
fn term_alt_screen_sequences() {
    let mut t = Term::new((80, 24));
    assert_eq!(t.enable_alt(), "\x1b[?1049h\x1b[?25l\x1b[2J\x1b[H");
    assert_eq!(t.alt_written(true), Some("\x1b[?1006h\x1b[?1003h\x1b[?1004h".to_string()));
    t.mouse_written(true);
    assert_eq!(t.enable_mouse(), None);
    assert_eq!(t.take_output(), "");
    t.disable_alt();
    assert_eq!(t.take_output(), "\x1b[?1004l\x1b[?1003l\x1b[?1006l\x1b[?25h\x1b[?1049l");
    t.disable_alt();
    assert_eq!(t.take_output(), "");
}

#[test]
fn term_modes_and_size() {
    let mut t = Term::new((80, 24));
    assert!(t.enable_raw());
    assert!(!t.enable_raw());
    t.clear_screen();
    assert_eq!(t.take_output(), "\x1b[2J\x1b[H");
    t.refresh_size((100, 30));
    assert_eq!(t.size(), (100, 30));
    assert_eq!(t.rect(), Rect::new(0, 0, 100, 30));
    let _ = t.enable_alt();
    let mouse = t.alt_written(true);
    assert!(mouse.is_some());
    t.mouse_written(true);
    assert!(t.restore());
    assert_eq!(t.take_output(), "\x1b[?1004l\x1b[?1003l\x1b[?1006l\x1b[?25h\x1b[?1049l");
    assert!(!t.disable_raw());
    t.write_str("hi");
    assert_eq!(t.take_output(), "hi");
}

#[test]
fn term_raw_mode_flags() {
    let t = Termios {
        iflag: u32::MAX,
        oflag: u32::MAX,
        cflag: 0,
        lflag: u32::MAX,
        line: 7,
        cc: [9u8; 32],
        ispeed: 15,
        ospeed: 15,
    };
    let r = raw_mode(&t);
    assert_eq!(r.iflag, u32::MAX - 1499);
    assert_eq!(r.oflag, u32::MAX - 1);
    assert_eq!(r.cflag, 0o60);
    assert_eq!(r.lflag, u32::MAX - 32811);
    assert_eq!(r.cc[6], 1);
    assert_eq!(r.cc[5], 0);
    assert_eq!(r.cc[0], 9);
    assert_eq!((r.line, r.ispeed, r.ospeed), (7, 15, 15));
}

#[test]
fn term_size_queries() {
    let ws = Winsize { ws_row: 30, ws_col: 100, ws_xpixel: 0, ws_ypixel: 0 };
    assert_eq!(winsize_dims(true, &ws), (100, 30));
    assert_eq!(winsize_dims(false, &ws), (80, 24));
    let none = Winsize { ws_col: 0, ..ws };
    assert_eq!(winsize_dims(true, &none), (80, 24));
    let c = COORD { x: 0, y: 0 };
    let info = CONSOLE_SCREEN_BUFFER_INFO {
        dwSize: c,
        dwCursorPosition: c,
        wAttributes: 0,
        srWindow: SMALL_RECT { left: 0, top: 0, right: 119, bottom: 29 },
        dwMaximumWindowSize: c,
    };
    assert_eq!(console_dims(true, &info), (120, 30));
    assert_eq!(console_dims(false, &info), (80, 24));
    let flipped = CONSOLE_SCREEN_BUFFER_INFO {
        srWindow: SMALL_RECT { left: 10, top: 5, right: 2, bottom: 5 },
        ..info
    };
    assert_eq!(console_dims(true, &flipped), (1, 1));
}

#[test]
fn term_failed_writes_leave_modes_off() {
    let mut t = Term::new((80, 24));
    // the mouse sequence did not reach the terminal: mouse stays off
    assert!(t.enable_mouse().is_some());
    t.mouse_written(false);
    assert!(t.enable_mouse().is_some());
    t.disable_mouse();
    assert_eq!(t.take_output(), "");
    // the alternate screen did not reach it: nothing follows, nothing to undo
    let _ = t.enable_alt();
    assert_eq!(t.alt_written(false), None);
    t.disable_alt();
    assert_eq!(t.take_output(), "");
    // the screen did, the mouse did not: only the screen is undone
    let _ = t.enable_alt();
    assert!(t.alt_written(true).is_some());
    t.mouse_written(false);
    t.disable_alt();
    assert_eq!(t.take_output(), "\x1b[?25h\x1b[?1049l");
}
