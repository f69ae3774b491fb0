use ratatui_plus::desktop::{now_hms, DeskAction, Desktop, Window};
use ratatui_plus::event::{Event, Key, KeyCode, Mouse, MouseButton, MouseKind};
use ratatui_plus::layout::Rect;

fn screen() -> Rect {
    Rect::new(0, 0, 80, 24)
}

fn press(x: u16, y: u16) -> Event {
    Event::Mouse(Mouse { x, y, button: MouseButton::Left, kind: MouseKind::Press })
}

fn motion(x: u16, y: u16) -> Event {
    Event::Mouse(Mouse { x, y, button: MouseButton::Left, kind: MouseKind::Motion })
}

fn release(x: u16, y: u16) -> Event {
    Event::Mouse(Mouse { x, y, button: MouseButton::Left, kind: MouseKind::Release })
}

fn key(code: KeyCode) -> Event {
    Event::Key(Key::new(code))
}

fn close_launcher(d: &mut Desktop) {
    assert_eq!(d.handle(&key(KeyCode::Esc), screen()), DeskAction::Nothing);
    assert!(!d.launcher_open());
}

#[test]
fn desktop_starts_with_launcher() {
    let d = Desktop::new();
    assert!(d.windows().is_empty());
    assert!(d.launcher_open());
    assert!(d.show_taskbar());
    assert_eq!(d.launcher_sel(), 0);
    let names: Vec<&str> = d.launcher_items().iter().map(|s| s.as_str()).collect();
    assert_eq!(names, vec!["Clock", "Terminal", "Snake", "Settings"]);
}

#[test]
fn desktop_open_centers_and_cascades() {
    let mut d = Desktop::new();
    let id = d.open(28, 10);
    assert_eq!(id, 1);
    assert_eq!(d.windows().len(), 1);
    let w: Window = d.windows()[0];
    // 28 x (10 + title + 1) centered on 80x24, shifted by the cascade of id 1
    assert_eq!(w.rect, Rect::new(28, 7, 28, 12));
    assert_eq!(w.z, 2);
    assert_eq!(d.focused(), 0);
    let id2 = d.open(40, 16);
    assert_eq!(id2, 2);
    assert_eq!(d.focused(), 1);
    assert!(d.windows()[1].z > d.windows()[0].z);
}

#[test]
fn desktop_launcher_press_launches_row() {
    let mut d = Desktop::new();
    // the launcher is 30x8 centered: rows of items start at y = 10
    assert_eq!(d.handle(&press(30, 11), screen()), DeskAction::Launch(1));
    assert!(!d.launcher_open());
    assert_eq!(d.launcher_sel(), 1);
}

#[test]
fn desktop_launcher_keys() {
    let mut d = Desktop::new();
    d.handle(&key(KeyCode::Down), screen());
    d.handle(&key(KeyCode::Down), screen());
    d.handle(&key(KeyCode::Down), screen());
    d.handle(&key(KeyCode::Down), screen());
    assert_eq!(d.launcher_sel(), 3);
    d.handle(&key(KeyCode::Up), screen());
    assert_eq!(d.launcher_sel(), 2);
    assert_eq!(d.handle(&key(KeyCode::Enter), screen()), DeskAction::Launch(2));
    assert!(!d.launcher_open());
    d.handle(&key(KeyCode::F(2)), screen());
    assert!(d.launcher_open());
}

#[test]
fn desktop_click_body_delivers() {
    let mut d = Desktop::new();
    d.open(28, 10);
    close_launcher(&mut d);
    let a = d.handle(&press(30, 10), screen());
    assert_eq!(a, DeskAction::Deliver { id: 1, area: Rect::new(29, 8, 26, 10) });
}

#[test]
fn desktop_drag_moves_window() {
    let mut d = Desktop::new();
    d.open(28, 10);
    close_launcher(&mut d);
    assert_eq!(d.handle(&press(30, 7), screen()), DeskAction::Nothing);
    d.handle(&motion(40, 9), screen());
    assert_eq!(d.windows()[0].rect, Rect::new(38, 9, 28, 12));
    d.handle(&release(40, 9), screen());
    d.handle(&motion(0, 0), screen());
    assert_eq!(d.windows()[0].rect, Rect::new(38, 9, 28, 12));
}

#[test]
fn desktop_resize_from_corner() {
    let mut d = Desktop::new();
    d.open(28, 10);
    close_launcher(&mut d);
    // bottom-right corner of (28, 7, 28, 12)
    d.handle(&press(55, 18), screen());
    d.handle(&motion(70, 20), screen());
    assert_eq!(d.windows()[0].rect, Rect::new(28, 7, 43, 14));
    // never smaller than the program's minimum
    d.handle(&motion(29, 8), screen());
    assert_eq!(d.windows()[0].rect, Rect::new(28, 7, 28, 12));
}

#[test]
fn desktop_close_button() {
    let mut d = Desktop::new();
    d.open(28, 10);
    close_launcher(&mut d);
    assert_eq!(d.handle(&press(55, 7), screen()), DeskAction::Closed(1));
    assert!(d.windows().is_empty());
    assert_eq!(d.focused(), 0);
}

#[test]
fn desktop_taskbar_focuses() {
    let mut d = Desktop::new();
    d.open(28, 10);
    d.open(28, 10);
    close_launcher(&mut d);
    assert_eq!(d.focused(), 1);
    assert_eq!(d.handle(&press(5, 23), screen()), DeskAction::Nothing);
    assert_eq!(d.focused(), 0);
    assert!(d.windows()[0].z > d.windows()[1].z);
}

#[test]
fn desktop_keys_cycle_close_deliver() {
    let mut d = Desktop::new();
    d.open(28, 10);
    d.open(28, 10);
    close_launcher(&mut d);
    d.handle(&key(KeyCode::Tab), screen());
    assert_eq!(d.focused(), 0);
    let w0 = d.windows()[0];
    assert_eq!(
        d.handle(&key(KeyCode::Char('x')), screen()),
        DeskAction::Deliver { id: w0.id, area: w0.rect.inner() }
    );
    let ctrl_q = Event::Key(Key::char('q').ctrl(true));
    assert_eq!(d.handle(&ctrl_q, screen()), DeskAction::Closed(1));
    assert_eq!(d.windows().len(), 1);
    assert_eq!(d.windows()[0].id, 2);
    // Ctrl-C is left to the application
    let ctrl_c = Event::Key(Key::char('c').ctrl(true));
    assert_eq!(d.handle(&ctrl_c, screen()), DeskAction::Nothing);
}

#[test]
fn desktop_press_on_nothing_closes_launcher() {
    let mut d = Desktop::new();
    assert_eq!(d.handle(&press(1, 1), screen()), DeskAction::Nothing);
    assert!(!d.launcher_open());
}

#[test]
fn desktop_can_handle_ordinary_events() {
    let d = Desktop::new();
    assert!(d.can_handle(&press(3, 3), screen()));
    assert!(d.can_handle(&Event::Tick, screen()));
    assert!(d.can_handle(&Event::Mouse(Mouse { x: 3, y: 3, button: MouseButton::Left, kind: MouseKind::Release }), screen()));
    assert!(d.can_handle(&key(KeyCode::Tab), screen()));
    assert!(d.can_open());
}

#[test]
fn desktop_clock_reads_hh_mm_ss() {
    let t = now_hms();
    let b = t.as_bytes();
    assert_eq!(b.len(), 8);
    assert_eq!(b[2], b':');
    assert_eq!(b[5], b':');
    let h: u32 = t[0..2].parse().unwrap();
    let m: u32 = t[3..5].parse().unwrap();
    let s: u32 = t[6..8].parse().unwrap();
    assert!(h < 24 && m < 60 && s < 60);
}
