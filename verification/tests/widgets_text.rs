use ratatui_plus::border::BorderSet;
use ratatui_plus::buffer::Buffer;
use ratatui_plus::color::Color;
use ratatui_plus::layout::{Align, Rect};
use ratatui_plus::style::Style;
use ratatui_plus::widgets::panel::Panel;
use ratatui_plus::widgets::text::{split_chars, Ascii, Text};

fn row(buf: &Buffer, y: u16) -> String {
    (0..buf.area.w).map(|x| buf.get(x, y).ch).collect()
}

#[test]
fn text_split_keeps_empty_pieces() {
    let s: Vec<char> = "a  b".chars().collect();
    let parts = split_chars(&s, ' ');
    let parts: Vec<String> = parts.iter().map(|p| p.iter().collect()).collect();
    assert_eq!(parts, vec!["a", "", "b"]);
    let none: Vec<char> = Vec::new();
    assert_eq!(split_chars(&none, ' ').len(), 1);
}

#[test]
fn text_wraps_words() {
    let mut buf = Buffer::empty(Rect::new(0, 0, 5, 3));
    Text::new(&mut buf, Rect::new(0, 0, 5, 3)).wrap(true).draw("hello world foo");
    assert_eq!(row(&buf, 0), "hello");
    assert_eq!(row(&buf, 1), "world");
    assert_eq!(row(&buf, 2), "foo  ");
}

#[test]
fn text_wrap_cuts_long_words() {
    let mut buf = Buffer::empty(Rect::new(0, 0, 3, 4));
    Text::new(&mut buf, Rect::new(0, 0, 3, 4)).wrap(true).draw("abcdefgh");
    assert_eq!(row(&buf, 0), "abc");
    assert_eq!(row(&buf, 1), "def");
    assert_eq!(row(&buf, 2), "gh ");
    assert_eq!(row(&buf, 3), "   ");
}

#[test]
fn text_joins_short_words() {
    let mut buf = Buffer::empty(Rect::new(0, 0, 7, 2));
    Text::new(&mut buf, Rect::new(0, 0, 7, 2)).wrap(true).draw("a b c d e");
    assert_eq!(row(&buf, 0), "a b c d");
    assert_eq!(row(&buf, 1), "e      ");
}

#[test]
fn text_lines_stop_at_bottom() {
    let mut buf = Buffer::empty(Rect::new(0, 0, 4, 3));
    Text::new(&mut buf, Rect::new(0, 1, 4, 1)).draw("one\ntwo");
    assert_eq!(row(&buf, 0), "    ");
    assert_eq!(row(&buf, 1), "one ");
    assert_eq!(row(&buf, 2), "    ");
}

#[test]
fn text_aligns_center_and_right() {
    let mut buf = Buffer::empty(Rect::new(0, 0, 10, 2));
    Text::new(&mut buf, Rect::new(0, 0, 10, 1)).align(Align::Center).draw("hi");
    Text::new(&mut buf, Rect::new(0, 1, 10, 1)).align(Align::Right).fg(Color::Red).draw("end");
    assert_eq!(row(&buf, 0), "    hi    ");
    assert_eq!(row(&buf, 1), "       end");
    assert_eq!(buf.get(9, 1).style, Style::new().fg(Color::Red));
}

#[test]
fn ascii_art_keeps_layout() {
    let mut buf = Buffer::empty(Rect::new(0, 0, 4, 3));
    Ascii::new(&mut buf, 1, 1).fg(Color::Green).draw("ab\n c");
    assert_eq!(row(&buf, 0), "    ");
    assert_eq!(row(&buf, 1), " ab ");
    assert_eq!(row(&buf, 2), "  c ");
    assert_eq!(buf.get(2, 2).style.fg, Color::Green);
}

#[test]
fn panel_draws_border_and_title() {
    let mut buf = Buffer::empty(Rect::new(0, 0, 10, 3));
    Panel::new(&mut buf, Rect::new(0, 0, 10, 3)).title("T").draw();
    assert_eq!(row(&buf, 0), "╭T───────╮");
    assert_eq!(row(&buf, 1), "│        │");
    assert_eq!(row(&buf, 2), "└────────┘");
}

#[test]
fn panel_title_centered_and_ascii() {
    let mut buf = Buffer::empty(Rect::new(0, 0, 10, 3));
    Panel::new(&mut buf, Rect::new(0, 0, 10, 3))
        .ascii()
        .title("ab")
        .title_align(Align::Center)
        .draw();
    assert_eq!(row(&buf, 0), "+---ab---+");
    assert_eq!(row(&buf, 2), "+--------+");
    let custom = BorderSet::new('a', 'b', 'c', 'd', 'h', 'v');
    let mut buf = Buffer::empty(Rect::new(0, 0, 3, 3));
    Panel::new(&mut buf, Rect::new(0, 0, 3, 3)).border_set(custom).draw();
    assert_eq!(row(&buf, 0), "ahb");
    assert_eq!(row(&buf, 1), "v v");
    assert_eq!(row(&buf, 2), "chd");
}

#[test]
fn text_wrap_drops_only_spaces() {
    let input = "the  quick brown   fox jumps";
    let mut buf = Buffer::empty(Rect::new(0, 0, 6, 8));
    Text::new(&mut buf, Rect::new(0, 0, 6, 8)).wrap(true).draw(input);
    let shown: String = (0..8).map(|y| row(&buf, y)).collect::<String>().chars().filter(|&c| c != ' ').collect();
    let expected: String = input.chars().filter(|&c| c != ' ').collect();
    assert_eq!(shown, expected);
}
