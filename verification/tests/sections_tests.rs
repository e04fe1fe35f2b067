use rmon::colors::{BRIGHT_CYAN, BRIGHT_GREEN, BRIGHT_MAGENTA, BRIGHT_RED, BRIGHT_YELLOW, DIM, RESET};
use rmon::layout::{inner_box, section_header};
use rmon::render::{side_by_side, WIDTH};
use rmon::sections::{cpu_section, disk_section, join, memory_section, network_section};

#[test]
fn join_with_newlines() {
    assert_eq!(join(&vec![]), "");
    assert_eq!(join(&vec!["a".to_string()]), "a");
    assert_eq!(join(&vec!["a".to_string(), String::new(), "b".to_string()]), "a\n\nb");
}

#[test]
fn cpu_lines() {
    let cores = vec!["r0".to_string(), "r1".to_string()];
    let s = cpu_section(Some(("BAR", &cores, "1,842", "423", "SPARK")));
    let expected = vec![
        section_header("CPU", WIDTH, BRIGHT_CYAN),
        "  BAR".to_string(),
        String::new(),
        "  r0".to_string(),
        "  r1".to_string(),
        String::new(),
        format!("  {}Threads:{} 1,842    {}Processes:{} 423", DIM, RESET, DIM, RESET),
        String::new(),
        format!("  {}History:{} SPARK", DIM, RESET),
    ]
    .join("\n");
    assert_eq!(s, expected);
    assert_eq!(
        cpu_section(None),
        format!("{}\n  No CPU data available", section_header("CPU", WIDTH, BRIGHT_CYAN))
    );
}

#[test]
fn memory_lines() {
    let s = memory_section(Some(("BAR", "16.00 GB", "12.03 GB", "3.21 GB", "1.50 GB", "SPARK")));
    let expected = vec![
        section_header("MEMORY", WIDTH, BRIGHT_GREEN),
        "  BAR".to_string(),
        String::new(),
        format!(
            "  {d}Physical:{r} 16.00 GB   {d}Used:{r} 12.03 GB   {d}Cached:{r} 3.21 GB   {d}Swap:{r} 1.50 GB",
            d = DIM,
            r = RESET
        ),
        String::new(),
        format!("  {}History:{} SPARK", DIM, RESET),
    ]
    .join("\n");
    assert_eq!(s, expected);
    assert!(memory_section(None).ends_with("\n  No memory data available"));
}

#[test]
fn disk_lines() {
    let realtime = vec!["read".to_string(), "write".to_string()];
    let s = disk_section(Some("/"), Some(&realtime), "R", "W");
    let mut expected = vec![section_header("DISK I/O  [/]", WIDTH, BRIGHT_YELLOW)];
    for line in inner_box(&realtime, "Realtime", 30) {
        expected.push(format!("  {}", line));
    }
    expected.push(String::new());
    expected.push(format!("  {}Read: {} R", BRIGHT_GREEN, RESET));
    expected.push(format!("  {}Write:{} W", BRIGHT_RED, RESET));
    assert_eq!(s, expected.join("\n"));
    assert_eq!(
        disk_section(None, None, "R", "W"),
        format!("{}\n  No disk data available", section_header("DISK I/O  [N/A]", WIDTH, BRIGHT_YELLOW))
    );
}

#[test]
fn network_lines() {
    let realtime = vec!["in".to_string(), "out".to_string()];
    let totals = vec!["total in".to_string(), "total out".to_string()];
    let s = network_section(Some("en0"), Some((&realtime, &totals)), "I", "O");
    let mut expected = vec![section_header("NETWORK  [en0]", WIDTH, BRIGHT_MAGENTA)];
    expected.extend(side_by_side(&inner_box(&realtime, "Realtime", 34), &inner_box(&totals, "Total", 34)));
    expected.push(String::new());
    expected.push(format!("  {}In: {} I", BRIGHT_CYAN, RESET));
    expected.push(format!("  {}Out:{} O", BRIGHT_MAGENTA, RESET));
    assert_eq!(s, expected.join("\n"));
    assert!(network_section(None, None, "I", "O").contains("NETWORK  [N/A]"));
    assert!(network_section(Some("en0"), None, "I", "O").ends_with("\n  No network data available"));
}
