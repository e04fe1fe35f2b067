use rmon::colors::{BOLD, BRIGHT_CYAN, DIM, RESET};
use rmon::layout::{divider, draw_box, inner_box, section_header, strip_ansi};

fn width(s: &str) -> usize {
    strip_ansi(s).chars().count()
}

#[test]
fn strip_ansi_removes_escapes() {
    assert_eq!(strip_ansi("\x1b[31mred\x1b[0m text"), "red text");
    assert_eq!(strip_ansi("plain"), "plain");
    assert_eq!(strip_ansi("\x1b[38;2;1;2;3m"), "");
    let once = strip_ansi("a\x1b[1mb\x1b[0mc");
    assert_eq!(strip_ansi(&once), once);
}

#[test]
fn section_header_exact() {
    let h = section_header("CPU", 20, BRIGHT_CYAN);
    assert_eq!(h, format!("{}══{} CPU {}{}", BRIGHT_CYAN, BOLD, RESET, "═".repeat(13)));
    assert_eq!(width(&h), 20);
    assert_eq!(width(&section_header("MEMORY", 78, BRIGHT_CYAN)), 78);
    // A title longer than the width keeps the title and the two leading bars.
    assert_eq!(width(&section_header("A LONG TITLE", 5, "")), 16);
}

#[test]
fn divider_exact() {
    assert_eq!(divider(3, "c"), format!("c───{}", RESET));
}

#[test]
fn draw_box_exact() {
    let b = draw_box(10, 3, "T", "");
    assert_eq!(b.len(), 3);
    assert_eq!(b[0], format!("┌──{} T {}───┐{}", BOLD, RESET, RESET));
    assert_eq!(b[1], format!("│        │{}", RESET));
    assert_eq!(b[2], format!("└────────┘{}", RESET));
    for line in &b {
        assert_eq!(width(line), 10);
    }
    let untitled = draw_box(4, 0, "", "");
    assert_eq!(untitled.len(), 2);
    assert_eq!(untitled[0], format!("┌──{}{}┐{}", BOLD, RESET, RESET));
}

#[test]
fn inner_box_exact() {
    let content = vec!["ab".to_string(), format!("{}x{}", BRIGHT_CYAN, RESET)];
    let b = inner_box(&content, "Hi", 10);
    assert_eq!(b.len(), 4);
    assert_eq!(b[0], format!("{}┌─ Hi ───┐", DIM));
    assert_eq!(b[1], format!("{}│{}  ab    {}│", DIM, RESET, DIM));
    assert_eq!(b[3], format!("{}└────────┘{}", DIM, RESET));
    // A closed rectangle: every line is as wide as the box.
    for line in &b {
        assert_eq!(width(line), 10);
    }
    let realtime = inner_box(&["x".to_string()], "Realtime", 30);
    for line in &realtime {
        assert_eq!(width(line), 30);
    }
}
