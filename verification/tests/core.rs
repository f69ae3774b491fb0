use ratatui_plus::buffer::{Buffer, Cell};
use ratatui_plus::canvas::Canvas;
use ratatui_plus::color::{Color, ColorLevel};
use ratatui_plus::event::{Event, Key, KeyCode, Mouse, MouseButton, MouseKind, Parser};
use ratatui_plus::frame::Frame;
use ratatui_plus::layout::{Align, Constraint, Layout, Point, Rect};
use ratatui_plus::style::Style;
use ratatui_plus::widgets::button::Btn;
use ratatui_plus::widgets::input::Input;

fn row(buf: &Buffer, y: u16) -> String {
    (0..buf.area.w).map(|x| buf.get(x, y).ch).collect()
}

#[test]
fn core_degrade_is_idempotent_and_fits() {
    for c in [Color::rgb(10, 20, 30), Color::Ansi(200), Color::BrightCyan, Color::rgb(250, 5, 5)] {
        for l in [ColorLevel::NoColor, ColorLevel::Basic, ColorLevel::Ansi256, ColorLevel::Rgb] {
            let d = c.degrade(l);
            assert_eq!(d.degrade(l), d);
        }
        assert_eq!(c.degrade(ColorLevel::NoColor), Color::Reset);
        assert!(!matches!(c.degrade(ColorLevel::Ansi256), Color::Rgb(..)));
        assert!(!matches!(c.degrade(ColorLevel::Basic), Color::Rgb(..) | Color::Ansi(..)));
    }
    // a palette color comes back as itself
    assert_eq!(Color::rgb(204, 0, 0).degrade(ColorLevel::Basic), Color::Red);
    assert!(ColorLevel::Rgb.supports_truecolor());
    assert!(!ColorLevel::Basic.supports_256());
}

#[test]
fn core_hex_rejects_other_lengths() {
    assert_eq!(Color::hex("#12"), Color::Reset);
    assert_eq!(Color::hex("abcd"), Color::Reset);
    assert_eq!(Color::hex("#fff"), Color::Rgb(255, 255, 255));
    assert_eq!(Color::hex("1a2b3c"), Color::Rgb(0x1a, 0x2b, 0x3c));
    assert_eq!(Color::hex("#zz0000"), Color::Rgb(0, 0, 0));
}

#[test]
fn core_style_open_sequences() {
    assert_eq!(Style::new().open(ColorLevel::Rgb), "\x1b[m");
    assert_eq!(Style::new().fg(Color::Red).bold(true).open(ColorLevel::Rgb), "\x1b[31;1m");
    assert_eq!(
        Style::new().fg(Color::rgb(1, 2, 3)).bg(Color::Blue).open(ColorLevel::Rgb),
        "\x1b[38;2;1;2;3;44m"
    );
    assert_eq!(Style::new().bg(Color::Ansi(17)).underline(true).open(ColorLevel::Ansi256), "\x1b[48;5;17;4m");
    assert_eq!(Style::new().fg(Color::Red).open(ColorLevel::NoColor), "\x1b[m");
    let p = Style::new().fg(Color::Red).patch(Style::new().bold(true));
    assert_eq!(p, Style::new().fg(Color::Red).bold(true));
}

#[test]
fn core_layout_regions_adjacent_and_fill() {
    let area = Rect::new(0, 0, 10, 30);
    let l = Layout::vertical(vec![Constraint::Length(4), Constraint::Min(2), Constraint::Length(6)]).spacing(1);
    let r = l.split(area);
    assert_eq!(r.len(), 3);
    assert_eq!(r[0].y, 0);
    assert_eq!(r[1].y, r[0].y + r[0].h + 1);
    assert_eq!(r[2].y, r[1].y + r[1].h + 1);
    // with a growing region the space is used up exactly
    assert_eq!(r[0].h + r[1].h + r[2].h + 2, 30);
    let fixed = Layout::horizontal(vec![Constraint::Length(3), Constraint::Length(3)]).split(area);
    assert_eq!(fixed[0].w + fixed[1].w, 6);
    assert_eq!(fixed[1].x, 3);
}

#[test]
fn core_rect_geometry() {
    let r = Rect::new(2, 3, 10, 4);
    assert_eq!(r.right(), 12);
    assert_eq!(r.bottom(), 7);
    assert_eq!(r.area(), 40);
    assert_eq!(r.inner(), Rect::new(3, 4, 8, 2));
    assert_eq!(r.intersect(Rect::new(0, 0, 5, 5)), Rect::new(2, 3, 3, 2));
    assert_eq!(r.centered(4, 2), Rect::new(5, 4, 4, 2));
    assert_eq!(Align::Center.h_offset(2, 10), 4);
    assert_eq!(Align::Right.h_offset(12, 10), 0);
    assert_eq!(Rect::new(65530, 0, 10, 1).right(), 65535);
}

#[test]
fn core_parser_printable_and_pending() {
    let mut p = Parser::new();
    let mut out = Vec::new();
    p.feed(b"x\x1b[", &mut out);
    assert_eq!(out, vec![Event::Key(Key::char('x'))]);
    p.feed(b"A", &mut out);
    assert_eq!(out, vec![Event::Key(Key::char('x')), Event::Key(Key::new(KeyCode::Up))]);
}

#[test]
fn core_parser_plain_bytes_split_anywhere() {
    let mut whole = Parser::new();
    let mut at_once = Vec::new();
    whole.feed(b"ab\x1b[B", &mut at_once);
    let mut split = Parser::new();
    let mut in_pieces = Vec::new();
    split.feed(b"ab", &mut in_pieces);
    split.feed(b"\x1b[B", &mut in_pieces);
    assert_eq!(in_pieces, at_once);
    assert_eq!(
        at_once,
        vec![Event::Key(Key::char('a')), Event::Key(Key::char('b')), Event::Key(Key::new(KeyCode::Down))]
    );
}

#[test]
fn core_parser_mouse_report() {
    let mut p = Parser::new();
    let mut out = Vec::new();
    p.feed(b"\x1b[<0;5;3M\x1b[<0;5;3m", &mut out);
    assert_eq!(
        out,
        vec![
            Event::Mouse(Mouse { x: 4, y: 2, button: MouseButton::Left, kind: MouseKind::Press }),
            Event::Mouse(Mouse { x: 4, y: 2, button: MouseButton::Left, kind: MouseKind::Release }),
        ]
    );
}

#[test]
fn core_buffer_cells_and_diff() {
    let mut b = Buffer::empty(Rect::new(0, 0, 4, 2));
    b.set(1, 1, Cell::new('z', Style::new()));
    assert_eq!(b.get(1, 1).ch, 'z');
    assert_eq!(b.get(9, 9), Cell::blank());
    b.write_str(2, 0, "abc", Style::new());
    assert_eq!(row(&b, 0), "  ab");
    let same = b.snapshot();
    assert_eq!(b.diff(Some(&same), ColorLevel::Rgb), "");
    b.resize(Rect::new(0, 0, 5, 1));
    assert_eq!(row(&b, 0), "  ab ");
    let mut top = Buffer::empty(Rect::new(0, 0, 2, 1));
    top.fill('#', Style::new());
    b.merge(&top, 4, 0);
    assert_eq!(row(&b, 0), "  ab#");
}

#[test]
fn core_canvas_shapes() {
    let mut b = Buffer::empty(Rect::new(0, 0, 5, 5));
    {
        let mut c = Canvas::new(&mut b);
        c.hline(0, 0, 4, '-', Style::new());
        c.vline(0, 0, 4, '|', Style::new());
        c.dot(2, 2, 'o', Style::new());
        c.dot(-1, 2, 'x', Style::new());
    }
    assert_eq!(row(&b, 0), "|----");
    assert_eq!(row(&b, 2), "| o  ");
    let mut b = Buffer::empty(Rect::new(0, 0, 5, 5));
    {
        let mut c = Canvas::new(&mut b).clip(Rect::new(1, 1, 3, 3));
        c.fill_rect(Rect::new(0, 0, 5, 5), '#', Style::new());
    }
    assert_eq!(row(&b, 0), "     ");
    assert_eq!(row(&b, 1), " ### ");
    let mut b = Buffer::empty(Rect::new(0, 0, 5, 5));
    {
        let mut c = Canvas::new(&mut b);
        c.disc(2, 2, 1, '*', Style::new());
        c.text(0, 4, "hey", Align::Right, 5, Style::new());
    }
    assert_eq!(row(&b, 1), "  *  ");
    assert_eq!(row(&b, 2), " *** ");
    assert_eq!(row(&b, 4), "  hey");
}

#[test]
fn core_input_types_and_submits() {
    let mut buf = Buffer::empty(Rect::new(0, 0, 12, 3));
    let mut input = Input::new(Rect::new(0, 0, 12, 3)).max(3);
    input.focus();
    let mut frame = Frame::new(&mut buf, Rect::new(0, 0, 12, 3), 0, ColorLevel::Rgb);
    for c in ['a', 'b', 'c', 'd'] {
        input.handle(&Event::Key(Key::char(c)), &mut frame);
    }
    assert_eq!(input.value(), "abc");
    input.handle(&Event::Key(Key::new(KeyCode::Left)), &mut frame);
    input.handle(&Event::Key(Key::new(KeyCode::Backspace)), &mut frame);
    assert_eq!(input.value(), "ac");
    assert!(input.changed());
    input.handle(&Event::Key(Key::new(KeyCode::Enter)), &mut frame);
    assert!(input.submitted());
    assert!(!input.changed());
    input.handle(&Event::Key(Key::new(KeyCode::Esc)), &mut frame);
    assert!(!input.is_focused());
    input.handle(&Event::Key(Key::char('z')), &mut frame);
    assert_eq!(input.value(), "ac");
}

#[test]
fn core_input_draws_hint_and_value() {
    let mut buf = Buffer::empty(Rect::new(0, 0, 10, 3));
    let mut input = Input::new(Rect::new(0, 0, 10, 3)).hint("name");
    {
        let mut frame = Frame::new(&mut buf, Rect::new(0, 0, 10, 3), 5, ColorLevel::Rgb);
        input.draw(&mut frame);
    }
    assert_eq!(row(&buf, 1), "│name    │");
    input.set_value("bob");
    let mut buf = Buffer::empty(Rect::new(0, 0, 10, 3));
    {
        let mut frame = Frame::new(&mut buf, Rect::new(0, 0, 10, 3), 5, ColorLevel::Rgb);
        input.draw(&mut frame);
    }
    assert_eq!(row(&buf, 1), "│bob     │");
}

#[test]
fn core_button_click_and_draw() {
    let mut buf = Buffer::empty(Rect::new(0, 0, 8, 3));
    let mut btn = Btn::new(Rect::new(0, 0, 8, 3)).label("OK");
    {
        let mut frame = Frame::new(&mut buf, Rect::new(0, 0, 8, 3), 9, ColorLevel::Rgb);
        let click = Event::Mouse(Mouse { x: 3, y: 1, button: MouseButton::Left, kind: MouseKind::Press });
        btn.handle(&click, &mut frame);
        assert!(btn.clicked());
        assert!(btn.is_focused());
        assert_eq!(frame.take_request(), Some(usize::MAX));
        btn.draw(&mut frame);
        assert_eq!(frame.focus_count(), 1);
    }
    assert_eq!(row(&buf, 0), "╭──────╮");
    assert_eq!(row(&buf, 1), "│  OK  │");
    let mut frame = Frame::new(&mut buf, Rect::new(0, 0, 8, 3), 9, ColorLevel::Rgb);
    btn.draw(&mut frame);
    assert!(!btn.is_focused());
    btn.handle(&Event::Key(Key::new(KeyCode::Enter)), &mut frame);
    assert!(!btn.clicked());
    let mut buf2 = Buffer::empty(Rect::new(0, 0, 8, 3));
    let mut frame = Frame::new(&mut buf2, Rect::new(0, 0, 8, 3), 0, ColorLevel::Rgb);
    btn.draw(&mut frame);
    assert!(btn.is_focused());
    btn.handle(&Event::Key(Key::new(KeyCode::Enter)), &mut frame);
    assert!(btn.clicked());
    btn.handle(&Event::Tick, &mut frame);
    assert!(!btn.clicked());
}

fn grid(b: &Buffer) -> Vec<String> {
    (0..b.area.h).map(|y| row(b, y)).collect()
}

#[test]
fn core_canvas_lines() {
    let mut b = Buffer::empty(Rect::new(0, 0, 5, 3));
    Canvas::new(&mut b).line(0, 0, 4, 2, '*', Style::new());
    assert_eq!(grid(&b), vec!["*    ", " **  ", "   **"]);
    let mut b = Buffer::empty(Rect::new(0, 0, 5, 4));
    Canvas::new(&mut b).line(4, 0, 0, 3, '*', Style::new());
    assert_eq!(grid(&b), vec!["    *", "   * ", " **  ", "*    "]);
    let mut b = Buffer::empty(Rect::new(0, 0, 5, 1));
    Canvas::new(&mut b).line(3, 0, 1, 0, '-', Style::new());
    assert_eq!(grid(&b), vec![" --- "]);
}

#[test]
fn core_canvas_polyline() {
    let mut b = Buffer::empty(Rect::new(0, 0, 5, 3));
    let pts = [Point::new(0, 0), Point::new(2, 2), Point::new(4, 0)];
    Canvas::new(&mut b).polyline(&pts, '*', Style::new());
    assert_eq!(grid(&b), vec!["*   *", " * * ", "  *  "]);
    let mut b = Buffer::empty(Rect::new(0, 0, 2, 1));
    Canvas::new(&mut b).polyline(&pts[..1], '*', Style::new());
    assert_eq!(grid(&b), vec!["  "]);
}

#[test]
fn core_canvas_circle() {
    let mut b = Buffer::empty(Rect::new(0, 0, 7, 7));
    Canvas::new(&mut b).circle(3, 3, 3, 'o', Style::new());
    assert_eq!(
        grid(&b),
        vec!["  ooo  ", " o   o ", "o     o", "o     o", "o     o", " o   o ", "  ooo  "]
    );
    let mut b = Buffer::empty(Rect::new(0, 0, 3, 3));
    Canvas::new(&mut b).circle(1, 1, -1, 'o', Style::new());
    assert_eq!(grid(&b), vec!["   ", "   ", "   "]);
}

#[test]
fn core_style_patch_laws() {
    let s = Style::new().fg(Color::Green).italic(true).alpha(100);
    assert_eq!(s.patch(Style::new()), s);
    let o = Style::new().bg(Color::Blue).bold(true);
    assert_eq!(s.patch(o).patch(o), s.patch(o));
}

#[test]
fn core_rect_intersection_law() {
    let a = Rect::new(0, 0, 5, 5);
    let b = Rect::new(3, 3, 5, 5);
    let i = a.intersect(b);
    for x in 0..10 {
        for y in 0..10 {
            assert_eq!(i.contains(x, y), a.contains(x, y) && b.contains(x, y));
        }
    }
}

#[test]
fn core_input_type_then_backspace() {
    let mut buf = Buffer::empty(Rect::new(0, 0, 12, 3));
    let mut input = Input::new(Rect::new(0, 0, 12, 3));
    input.set_value("ab");
    input.focus();
    let mut frame = Frame::new(&mut buf, Rect::new(0, 0, 12, 3), 0, ColorLevel::Rgb);
    input.handle(&Event::Key(Key::new(KeyCode::Home)), &mut frame);
    input.handle(&Event::Key(Key::char('x')), &mut frame);
    assert_eq!(input.value(), "xab");
    input.handle(&Event::Key(Key::new(KeyCode::Backspace)), &mut frame);
    assert_eq!(input.value(), "ab");
}

#[test]
fn core_color_text() {
    assert_eq!(Color::Rgb(255, 0, 16).to_string(), "#ff0010");
    assert_eq!(Color::Ansi(42).to_string(), "ansi42");
    assert_eq!(Color::Reset.to_string(), "default");
    assert_eq!(Color::BrightCyan.to_string(), "BrightCyan");
}

#[test]
fn core_parser_split_after_esc_o_differs() {
    let mut whole = Parser::new();
    let mut at_once = Vec::new();
    whole.feed(b"\x1bOP", &mut at_once);
    assert_eq!(at_once, vec![Event::Key(Key::new(KeyCode::F(1)))]);
    let mut split = Parser::new();
    let mut in_pieces = Vec::new();
    split.feed(b"\x1bO", &mut in_pieces);
    split.feed(b"P", &mut in_pieces);
    assert_eq!(in_pieces, vec![Event::Focus(false), Event::Key(Key::char('P'))]);
}

#[test]
fn core_color_text_round_trips_through_hex() {
    for &(r, g, b) in &[(0u8, 0u8, 0u8), (255, 255, 255), (18, 171, 239), (160, 9, 10)] {
        let c = Color::rgb(r, g, b);
        assert_eq!(Color::hex(&c.to_string()), c);
    }
}

#[test]
fn core_constraint_conversions() {
    let a: Constraint = 7u16.into();
    assert_eq!(a, Constraint::Length(7));
    let b: Constraint = (1u32, 4u32).into();
    assert_eq!(b, Constraint::Ratio(1, 4));
    let l = Layout::vertical(vec![5u16.into(), Constraint::Fill, (1u32, 4u32).into()]);
    let parts = l.split(Rect::new(0, 0, 10, 20));
    assert_eq!(parts[0].h, 5);
    assert_eq!(parts[2].h, 5);
    assert_eq!(parts[1].h, 10);
}

#[test]
fn core_canvas_line_visits_longer_extent_plus_one() {
    let mut b = Buffer::empty(Rect::new(0, 0, 4, 7));
    Canvas::new(&mut b).line(1, 0, 3, 6, '#', Style::new());
    let n: usize = grid(&b).iter().map(|r| r.chars().filter(|&c| c == '#').count()).sum();
    assert_eq!(n, 7);
    for y in 0..7 {
        assert_eq!(row(&b, y).chars().filter(|&c| c == '#').count(), 1);
    }
}
