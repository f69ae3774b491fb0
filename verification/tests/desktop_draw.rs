use ratatui_plus::buffer::Buffer;
use ratatui_plus::color::{Color, ColorLevel};
use ratatui_plus::desktop::Desktop;
use ratatui_plus::event::{Event, Key, KeyCode};
use ratatui_plus::frame::Frame;
use ratatui_plus::layout::Rect;

fn row(buf: &Buffer, y: u16) -> String {
    (0..buf.area.w).map(|x| buf.get(x, y).ch).collect()
}

fn area() -> Rect {
    Rect::new(0, 0, 40, 10)
}

fn small_desktop() -> Desktop {
    let mut d = Desktop::new();
    d.handle(&Event::Key(Key::new(KeyCode::Esc)), area());
    d
}

#[test]
fn desktop_draws_background() {
    let mut buf = Buffer::empty(area());
    let d = small_desktop();
    {
        let mut f = Frame::new(&mut buf, area(), 0, ColorLevel::Rgb);
        d.draw_bg(&mut f);
    }
    assert_eq!(row(&buf, 1), format!("  color: Rgb{}", " ".repeat(28)));
    assert_eq!(row(&buf, 4), "          ratatui-plus desktop          ");
    assert_eq!(buf.get(0, 0).style.bg, Color::Rgb(18, 18, 28));
    assert_eq!(buf.get(12, 4).style.fg, Color::Rgb(60, 60, 80));
}

#[test]
fn desktop_draws_window_frame() {
    let mut buf = Buffer::empty(area());
    let mut d = small_desktop();
    d.open(28, 10);
    assert_eq!(d.windows()[0].rect, Rect::new(8, 1, 28, 9));
    {
        let mut f = Frame::new(&mut buf, area(), 0, ColorLevel::Rgb);
        d.draw_window_frame(&mut f, 0, "Clock");
    }
    assert_eq!(row(&buf, 1), "        ┌ Clock ──────────────────×┐    ");
    assert_eq!(row(&buf, 2), "        │                          │    ");
    assert_eq!(row(&buf, 9), "        └──────────────────────────╲    ");
    assert_eq!(buf.get(8, 1).style.fg, Color::Cyan);
    assert_eq!(buf.get(10, 1).style.bg, Color::Blue);
    assert_eq!(buf.get(34, 1).style.fg, Color::Red);
}

#[test]
fn desktop_draws_taskbar() {
    let mut buf = Buffer::empty(area());
    let mut d = small_desktop();
    d.open(28, 10);
    let bar = Rect::new(0, 9, 40, 1);
    assert!(d.can_draw_taskbar(bar));
    {
        let mut f = Frame::new(&mut buf, area(), 0, ColorLevel::Rgb);
        d.draw_taskbar(&mut f, bar, &vec!["Clock".to_string()], "12:34:56");
    }
    assert_eq!(row(&buf, 9), "▸Clock                         12:34:56 ");
    assert_eq!(buf.get(0, 9).style.bg, Color::Cyan);
    assert_eq!(buf.get(20, 9).style.bg, Color::Rgb(30, 30, 46));
    assert_eq!(buf.get(31, 9).style.fg, Color::BrightGreen);
}

#[test]
fn desktop_draws_launcher() {
    let mut buf = Buffer::empty(area());
    let mut d = Desktop::new();
    d.handle(&Event::Tick, area());
    assert!(d.can_draw_launcher());
    {
        let mut f = Frame::new(&mut buf, area(), 0, ColorLevel::Rgb);
        d.draw_launcher(&mut f);
    }
    assert_eq!(row(&buf, 1), "     ╔════════════════════════════╗     ");
    assert_eq!(row(&buf, 2), "     ║◆ Launch an app             ║     ");
    assert_eq!(row(&buf, 3), "     ║ Clock                      ║     ");
    assert_eq!(row(&buf, 6), "     ║ Settings                   ║     ");
    assert_eq!(row(&buf, 8), "     ╚↑/↓ select · Enter open · F2 toggl");
    assert_eq!(buf.get(7, 3).style.bg, Color::Yellow);
    assert_eq!(buf.get(7, 4).style.bg, Color::Reset);
}

#[test]
fn desktop_stacking_follows_focus() {
    let mut d = small_desktop();
    d.open(28, 10);
    d.open(28, 10);
    assert_eq!(d.stacking(), vec![0, 1]);
    d.handle(&Event::Key(Key::new(KeyCode::Tab)), area());
    assert_eq!(d.focused(), 0);
    assert_eq!(d.stacking(), vec![1, 0]);
}
