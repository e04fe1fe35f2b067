use rmon::uptime::{get_uptime, parse_boot_time};

const BOOT: &str = "kern.boottime: { sec = 1703123456, usec = 123456 } Thu Dec 21 01:50:56 2023\n";

#[test]
fn boot_time() {
    assert_eq!(parse_boot_time(BOOT), Some(1703123456));
    assert_eq!(parse_boot_time("{ sec = 12 }"), None);
    assert_eq!(parse_boot_time("{ sec =  77 , usec = 1 }"), Some(77));
    assert_eq!(parse_boot_time("nothing"), None);
}

#[test]
fn uptime_with_days() {
    let now = 1703123456 + 3 * 86400 + 4 * 3600 + 5 * 60 + 7;
    let u = get_uptime(BOOT, now).unwrap();
    assert_eq!(u.seconds, 273907);
    assert_eq!(u.formatted, "3d 4h 5m");
}

#[test]
fn uptime_under_a_day() {
    let u = get_uptime(BOOT, 1703123456 + 4 * 3600 + 59).unwrap();
    assert_eq!(u.formatted, "4h 0m");
}

#[test]
fn boot_in_the_future_counts_as_zero() {
    let u = get_uptime(BOOT, 5).unwrap();
    assert_eq!(u.seconds, 0);
    assert_eq!(u.formatted, "0h 0m");
    assert!(get_uptime("garbage", 5).is_none());
}

#[test]
fn uptime_parts_add_up_to_the_minute() {
    for secs in [0u64, 59, 60, 3599, 3600, 86399, 86400, 90061, 1_000_000] {
        let u = get_uptime("sec = 0,", secs).unwrap();
        let mut total = 0u64;
        for part in u.formatted.split(' ') {
            let (num, unit) = part.split_at(part.len() - 1);
            let n: u64 = num.parse().unwrap();
            total += n * match unit {
                "d" => 86400,
                "h" => 3600,
                _ => 60,
            };
        }
        assert!(total <= secs && secs < total + 60, "{} -> {}", secs, u.formatted);
    }
}
