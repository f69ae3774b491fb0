use ratatui_plus::apps::clock::{hms, ClockApp};
use ratatui_plus::apps::settings::SettingsApp;
use ratatui_plus::apps::snake::SnakeApp;
use ratatui_plus::color::ColorLevel;
use ratatui_plus::error::{err, Error};
use ratatui_plus::event::{Event, Key, KeyCode};
use ratatui_plus::layout::Rect;

fn area() -> Rect {
    Rect::new(0, 0, 30, 16)
}

fn ticks(s: &mut SnakeApp, n: usize) {
    for _ in 0..n {
        s.handle(&Event::Tick, area());
    }
}

#[test]
fn clock_formats_time_of_day() {
    assert_eq!(hms(0), "00:00:00");
    assert_eq!(hms(3661), "01:01:01");
    assert_eq!(hms(86399), "23:59:59");
    assert_eq!(hms(86400 + 45), "00:00:45");
    assert_eq!(ClockApp.title(), "Clock");
    assert_eq!(ClockApp.min_size(), (34, 14));
}

#[test]
fn settings_report_names_level() {
    assert_eq!(SettingsApp::level_name(ColorLevel::Ansi256), "256-color");
    assert_eq!(SettingsApp::level_name(ColorLevel::NoColor), "no-color");
    let r = SettingsApp::report(ColorLevel::Rgb);
    assert!(r.starts_with("color level : truecolor (24-bit)\nstd only"));
    assert_eq!(r.lines().count(), 5);
    assert_eq!(SettingsApp.title(), "Settings");
    assert_eq!(SettingsApp.min_size(), (40, 16));
}

#[test]
fn error_messages() {
    assert_eq!(Error::Term("no tty".to_string()).message(), "terminal error: no tty");
    assert_eq!(err("boom"), Error::Other("boom".to_string()));
    assert_eq!(err("boom").message(), "boom");
}

#[test]
fn snake_moves_every_fourth_tick() {
    let mut s = SnakeApp::new();
    assert_eq!(s.title(), "Snake");
    assert_eq!(s.min_size(), (30, 16));
    ticks(&mut s, 3);
    assert_eq!(s.body(), &vec![(5, 5), (4, 5), (3, 5)]);
    ticks(&mut s, 1);
    assert_eq!(s.body(), &vec![(6, 5), (5, 5), (4, 5)]);
    assert_eq!(s.score(), 0);
}

#[test]
fn snake_cannot_reverse() {
    let mut s = SnakeApp::new();
    s.handle(&Event::Key(Key::new(KeyCode::Left)), area());
    ticks(&mut s, 4);
    assert_eq!(s.body()[0], (6, 5));
    s.handle(&Event::Key(Key::new(KeyCode::Down)), area());
    ticks(&mut s, 4);
    assert_eq!(s.body()[0], (6, 6));
}

#[test]
fn snake_eats_and_grows() {
    let mut s = SnakeApp::new();
    s.handle(&Event::Key(Key::new(KeyCode::Down)), area());
    ticks(&mut s, 12);
    assert_eq!(s.body()[0], (5, 8));
    s.handle(&Event::Key(Key::new(KeyCode::Right)), area());
    ticks(&mut s, 20);
    assert_eq!(s.body()[0], (10, 8));
    assert_eq!(s.score(), 1);
    assert_eq!(s.body().len(), 4);
    // new food comes from the tick count (32): (32 % 28, 32 / 7 % 14)
    assert_eq!(s.food(), (4, 4));
}

#[test]
fn snake_dies_at_the_edge_and_rests() {
    let mut s = SnakeApp::new();
    s.handle(&Event::Key(Key::new(KeyCode::Up)), area());
    ticks(&mut s, 20);
    assert_eq!(s.body()[0], (5, 0));
    assert!(!s.is_dead());
    ticks(&mut s, 4);
    assert!(s.is_dead());
    let before = s.body().clone();
    ticks(&mut s, 8);
    assert_eq!(s.body(), &before);
}
