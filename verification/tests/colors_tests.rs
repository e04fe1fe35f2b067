use rmon::colors::{bg_256, bg_rgb, cursor_to, fg_256, fg_rgb, RESET};
use rmon::layout::strip_ansi;

#[test]
fn color_codes() {
    assert_eq!(fg_rgb(255, 128, 0), "\x1b[38;2;255;128;0m");
    assert_eq!(bg_rgb(0, 9, 10), "\x1b[48;2;0;9;10m");
    assert_eq!(fg_256(7), "\x1b[38;5;7m");
    assert_eq!(bg_256(196), "\x1b[48;5;196m");
    assert_eq!(cursor_to(3, 14), "\x1b[3;14H");
}

#[test]
fn color_codes_take_no_columns() {
    let text = format!("{}hot{}{} cold{}", fg_rgb(255, 0, 0), RESET, bg_256(21), RESET);
    assert_eq!(strip_ansi(&text), "hot cold");
}
