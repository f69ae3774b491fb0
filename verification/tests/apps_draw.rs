use ratatui_plus::apps::settings::SettingsApp;
use ratatui_plus::apps::snake::SnakeApp;
use ratatui_plus::apps::terminal::TermApp;
use ratatui_plus::buffer::Buffer;
use ratatui_plus::color::{Color, ColorLevel};
use ratatui_plus::event::{Event, Key, KeyCode, Mouse, MouseButton, MouseKind};
use ratatui_plus::frame::Frame;
use ratatui_plus::layout::Rect;

fn row(buf: &Buffer, y: u16) -> String {
    (0..buf.area.w).map(|x| buf.get(x, y).ch).collect()
}

#[test]
fn settings_panel_draws_report_and_bar() {
    let area = Rect::new(0, 0, 40, 16);
    let mut buf = Buffer::empty(area);
    {
        let mut f = Frame::new(&mut buf, area, 0, ColorLevel::Ansi256);
        SettingsApp.draw(&mut f, area);
    }
    assert!(row(&buf, 1).starts_with(" color level : 256-color "));
    assert!(row(&buf, 2).starts_with(" std only    : yes (no external crates)"));
    assert!(row(&buf, 5).starts_with(" transparency : alpha on supported termi"));
    assert!(row(&buf, 9).starts_with("    translucent panel (alpha 0.5)"));
    assert_eq!(buf.get(5, 10).style.bg, Color::Magenta);
    assert_eq!(buf.get(5, 10).style.alpha, Some(128));
    assert_eq!(buf.get(0, 10).style.bg, Color::Reset);
}

#[test]
fn snake_draws_field() {
    let area = Rect::new(0, 0, 30, 16);
    let mut buf = Buffer::empty(area);
    let s = SnakeApp::new();
    {
        let mut f = Frame::new(&mut buf, area, 0, ColorLevel::Rgb);
        s.draw(&mut f, area);
    }
    assert_eq!(buf.get(11, 9).ch, '★');
    assert_eq!(buf.get(6, 6).ch, '█');
    assert_eq!(buf.get(4, 6).ch, '█');
    assert_eq!(buf.get(7, 6).ch, ' ');
    assert!(row(&buf, 1).starts_with(" score: 0  (arrows to move)"));
}

#[test]
fn snake_draws_game_over() {
    let area = Rect::new(0, 0, 30, 16);
    let mut s = SnakeApp::new();
    s.handle(&Event::Key(Key::new(KeyCode::Up)), area);
    for _ in 0..24 {
        s.handle(&Event::Tick, area);
    }
    assert!(s.is_dead());
    let mut buf = Buffer::empty(area);
    {
        let mut f = Frame::new(&mut buf, area, 0, ColorLevel::Rgb);
        s.draw(&mut f, area);
    }
    // the 12-wide middle box of the 28x14 field starts at column 9, row 7
    assert_eq!(row(&buf, 7), "         GAME OVER            ");
}

#[test]
fn terminal_keeps_history() {
    let area = Rect::new(0, 0, 44, 14);
    let mut buf = Buffer::empty(area);
    let mut t = TermApp::new();
    assert_eq!(t.title(), "Terminal");
    assert_eq!(t.min_size(), (44, 14));
    {
        let mut f = Frame::new(&mut buf, area, 0, ColorLevel::Rgb);
        let click = Event::Mouse(Mouse { x: 5, y: 13, button: MouseButton::Left, kind: MouseKind::Press });
        t.handle(&click, &mut f, area);
        t.handle(&Event::Key(Key::char('h')), &mut f, area);
        t.handle(&Event::Key(Key::char('i')), &mut f, area);
        t.handle(&Event::Key(Key::new(KeyCode::Enter)), &mut f, area);
        t.handle(&Event::Key(Key::new(KeyCode::Enter)), &mut f, area);
        t.draw(&mut f, area);
    }
    assert!(row(&buf, 0).starts_with("ratatui-plus terminal — type and press Enter"));
    assert!(row(&buf, 1).starts_with("hi "));
    assert!(row(&buf, 2).starts_with("   "));
}
