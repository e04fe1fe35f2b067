use rmon::colors::{BOLD, BRIGHT_WHITE, BRIGHT_YELLOW, CLEAR_SCREEN, CURSOR_HOME, CYAN, DIM, RESET};
use rmon::graphs::{compose_sparkline, core_rows, filled_bar, spark_char};
use rmon::layout::strip_ansi;
use rmon::render::{render_footer, render_header, render_screen, side_by_side, WIDTH};

#[test]
fn footer() {
    assert_eq!(
        render_footer(),
        format!("\n{}  Press 'q' to quit | 'd' cycle Disk | 'n' cycle Network{}", DIM, RESET)
    );
}

#[test]
fn header() {
    let h = render_header("5d 3h 2m");
    let lines: Vec<&str> = h.split('\n').collect();
    assert_eq!(lines.len(), 3);
    assert_eq!(lines[0], format!("{}{}╔{}╗{}", CYAN, BOLD, "═".repeat(76), RESET));
    let padding = 78 - (30 + 16 + 6);
    assert_eq!(
        lines[1],
        format!(
            "{}║  {}{}TOR-MONITOR - Resource Monitor{}{}{}Uptime: 5d 3h 2m  ║{}",
            CYAN,
            BRIGHT_WHITE,
            BOLD,
            RESET,
            " ".repeat(padding),
            BRIGHT_YELLOW,
            RESET
        )
    );
    for line in &lines {
        assert_eq!(strip_ansi(line).chars().count(), WIDTH);
    }
}

#[test]
fn header_with_long_uptime_has_no_padding() {
    let long = "9".repeat(40);
    let h = render_header(&long);
    assert!(h.contains(&format!("Monitor{}{}Uptime", RESET, BRIGHT_YELLOW)));
}

#[test]
fn side_by_side_rows() {
    let left = vec!["a".to_string(), "b".to_string()];
    let right = vec!["x".to_string()];
    assert_eq!(side_by_side(&left, &right), vec!["  a  x".to_string(), "  b  ".to_string()]);
    assert_eq!(side_by_side(&right, &left), vec!["  x  a".to_string(), "    b".to_string()]);
    assert!(side_by_side(&[], &[]).is_empty());
}

#[test]
fn screen() {
    let s = render_screen("H", &["one".to_string(), "two".to_string()]);
    assert_eq!(s, format!("{}{}H\none\ntwo\n{}", CLEAR_SCREEN, CURSOR_HOME, render_footer()));
}

#[test]
fn bars() {
    assert_eq!(filled_bar("C", 3, 5, '▰', '▱'), format!("C▰▰▰{}▱▱{}", DIM, RESET));
    assert_eq!(filled_bar("C", 7, 5, '▰', '▱'), format!("C▰▰▰▰▰▰▰{}{}", DIM, RESET));
    assert_eq!(strip_ansi(&filled_bar(CYAN, 2, 8, '━', '░')).chars().count(), 8);
}

#[test]
fn sparklines() {
    assert_eq!(spark_char(0), '▁');
    assert_eq!(spark_char(3), '▄');
    assert_eq!(spark_char(7), '█');
    assert_eq!(spark_char(42), '█');
    let colors = vec![String::new(), String::new()];
    assert_eq!(compose_sparkline("", &colors, &[0, 7], 4), format!("▁█{}  ", RESET));
    assert_eq!(compose_sparkline(CYAN, &colors, &[1, 2], 1), format!("{}▃{}", CYAN, RESET));
    assert_eq!(compose_sparkline(CYAN, &[], &[], 3), "   ");
    let c2 = vec!["\x1b[31m".to_string(), "\x1b[32m".to_string(), "\x1b[33m".to_string()];
    let line = compose_sparkline("", &c2, &[0, 4, 7], 10);
    assert_eq!(strip_ansi(&line).chars().count(), 10);
}

#[test]
fn core_rows_layout() {
    let bars: Vec<String> = (0..4).map(|i| format!("b{}", i)).collect();
    let usages: Vec<String> = vec![" 65".into(), " 38".into(), "  7".into(), "100".into()];
    let rows = core_rows(&bars, &usages, 3);
    assert_eq!(rows.len(), 2);
    assert_eq!(
        rows[0],
        format!("{c}C0 {r} b0  65%  {c}C1 {r} b1  38%  {c}C2 {r} b2   7%  ", c = CYAN, r = RESET)
    );
    assert_eq!(rows[1], format!("{c}C3 {r} b3 100%  ", c = CYAN, r = RESET));
    let many: Vec<String> = (0..12).map(|_| String::new()).collect();
    let rows = core_rows(&many, &many, 12);
    assert!(rows[0].contains(&format!("C11{}", RESET)));
    assert!(core_rows(&[], &[], 3).is_empty());
}
