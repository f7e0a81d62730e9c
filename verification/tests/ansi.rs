//! ANSI escape formatting.

use rff::ansi::clear;
use rff::ansi::color::{Bg, Colors, Fg, Reset};
use rff::ansi::cursor;
use rff::ansi::style;

#[test]
fn clear_after_cursor() {
    assert_eq!(clear::AfterCursor.text(), "\x1b[K");
}

#[test]
fn clear_before_cursor() {
    assert_eq!(clear::BeforeCursor.text(), "\x1b[1K");
}

#[test]
fn clear_line() {
    assert_eq!(clear::Line.text(), "\x1b[2K");
}

#[test]
fn screen() {
    assert_eq!(clear::Screen.text(), "\x1b[J");
}

#[test]
fn cursor_goto() {
    let s = cursor::GoTo(1, 2).text();
    assert_eq!(s, "\x1b[1;2H");
}

#[test]
fn cursor_up() {
    let s = cursor::Up(2).text();
    assert_eq!(s, "\x1b[2A");
}

#[test]
fn cursor_down() {
    let s = cursor::Down(2).text();
    assert_eq!(s, "\x1b[2B");
}

#[test]
fn cursor_left() {
    let s = cursor::Left(2).text();
    assert_eq!(s, "\x1b[2D");
}

#[test]
fn cursor_right() {
    let s = cursor::Right(2).text();
    assert_eq!(s, "\x1b[2C");
}

#[test]
fn cursor_up_line() {
    let s = cursor::UpLine(2).text();
    assert_eq!(s, "\x1b[2F");
}

#[test]
fn cursor_down_line() {
    let s = cursor::DownLine(2).text();
    assert_eq!(s, "\x1b[2E");
}

#[test]
fn cursor_column() {
    let s = cursor::Column(1).text();
    assert_eq!(s, "\x1b[1G");
}

#[test]
fn macros_csi() {
    assert_eq!(rff::ansi::csi("123"), "\x1b[123");
}

#[test]
fn styles() {
    assert_eq!(style::Reset.text(), "\x1b[m");
    assert_eq!(style::Bold.text(), "\x1b[1m");
    assert_eq!(style::Italic.text(), "\x1b[3m");
    assert_eq!(style::Underline.text(), "\x1b[4m");
    assert_eq!(style::Invert.text(), "\x1b[7m");
    assert_eq!(style::NoBold.text(), "\x1b[21m");
    assert_eq!(style::NoItalic.text(), "\x1b[23m");
    assert_eq!(style::NoUnderline.text(), "\x1b[24m");
    assert_eq!(style::NoInvert.text(), "\x1b[27m");
}

#[test]
fn palette_colors() {
    assert_eq!(Fg(Colors::Black).text(), "\x1b[38;5;0m");
    assert_eq!(Bg(Colors::Black).text(), "\x1b[48;5;0m");
    assert_eq!(Fg(Colors::Magenta).text(), "\x1b[38;5;5m");
    assert_eq!(Bg(Colors::Magenta).text(), "\x1b[48;5;5m");
    assert_eq!(Fg(Colors::White).text(), "\x1b[38;5;7m");
    assert_eq!(Fg(Colors::LightBlack).text(), "\x1b[38;5;8m");
    assert_eq!(Fg(Colors::LightWhite).text(), "\x1b[38;5;15m");
    assert_eq!(Bg(Colors::LightCyan).text(), "\x1b[48;5;14m");
}

#[test]
fn test_reset() {
    let fg = Fg(Reset).text();
    let bg = Bg(Reset).text();

    assert_eq!(fg, "\x1b[39m");
    assert_eq!(bg, "\x1b[49m")
}
