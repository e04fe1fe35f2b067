use rmon::cpu::{cpu_usage_fields, parse_core_count, parse_process_thread_count};

const TOP: &str = "Processes: 423 total, 2 running, 421 sleeping, 1842 threads 
2024/01/01 12:00:00
Load Avg: 1.0, 1.1, 1.2 
CPU usage: 5.26% user, 10.52% sys, 84.21% idle 
Processes: 1 total, 1 threads
CPU usage: 3.10% user, 2.50% sys, 94.40% idle 
SharedLibs: 1M resident
";

#[test]
fn process_and_thread_counts() {
    assert_eq!(parse_process_thread_count(TOP), (423, 1842));
    assert_eq!(parse_process_thread_count("Processes: 12 total, 34, threads\n"), (12, 34));
    assert_eq!(parse_process_thread_count("Processes: x total\n"), (0, 0));
    assert_eq!(parse_process_thread_count("no such line\n"), (0, 0));
    assert_eq!(parse_process_thread_count(" Processes: 3 total\n"), (0, 0));
}

#[test]
fn cpu_usage_from_last_line() {
    assert_eq!(
        cpu_usage_fields(TOP),
        Some(("3.10".to_string(), "2.50".to_string(), "94.40".to_string()))
    );
    assert_eq!(cpu_usage_fields("CPU usage: 1% user, 2% sys\n"), None);
    assert_eq!(cpu_usage_fields("nothing\n"), None);
}

#[test]
fn core_count() {
    assert_eq!(parse_core_count(" 8\n"), Some(8));
    assert_eq!(parse_core_count("eight"), None);
}
