use rmon::disk::{iostat_columns, parse_disk_capacity};

const DF: &str = "Filesystem     1024-blocks      Used Available Capacity iused      ifree %iused  Mounted on
/dev/disk3s1s1   482797652  10234567 200000000     5%  404167 2000000000    0%   /
devfs                  200       200         0   100%     692          0  100%   /dev
/dev/disk3s6     482797652   2097172 200000000     2%       3 2000000000    0%   /System/Volumes/VM
map auto_home            0         0         0   100%       0          0     -   /System/Volumes/Data/home
/dev/short 1 2
";

#[test]
fn df_rows() {
    let disks = parse_disk_capacity(DF).unwrap();
    assert_eq!(disks.len(), 2);
    assert_eq!(disks[0].name, "/dev/disk3s1s1");
    assert_eq!(disks[0].mount_point, "/");
    assert_eq!(disks[0].total_bytes, 482797652 * 1024);
    assert_eq!(disks[0].used_bytes, 10234567 * 1024);
    assert_eq!(disks[0].available_bytes, 200000000 * 1024);
    assert_eq!(disks[1].mount_point, "/System/Volumes/VM");
    assert_eq!(disks[1].used_bytes, 2097172 * 1024);
}

#[test]
fn df_unparsable_sizes_are_zero() {
    let disks = parse_disk_capacity("Filesystem\n/dev/x  -  12 n/a  5%  /mnt\n").unwrap();
    assert_eq!(disks[0].total_bytes, 0);
    assert_eq!(disks[0].used_bytes, 12 * 1024);
    assert_eq!(disks[0].available_bytes, 0);
}

#[test]
fn df_overflow() {
    assert!(parse_disk_capacity("Filesystem\n/dev/x 18014398509481984 1 1 1% /\n").is_none());
    assert!(parse_disk_capacity("Filesystem\n/dev/x 18014398509481983 1 1 1% /\n").is_some());
    assert!(parse_disk_capacity("").unwrap().is_empty());
}

fn pair(a: &str, b: &str) -> Option<(String, String)> {
    Some((a.to_string(), b.to_string()))
}

#[test]
fn iostat_latest_sample() {
    let out = "              disk0               disk4 
    KB/t  tps  MB/s     KB/t  tps  MB/s 
   21.87   30  0.64     0.00    0  0.00 
   12.00    3  0.04     0.00    0  0.00 
";
    assert_eq!(iostat_columns(out), pair("3", "0.04"));
    assert_eq!(
        iostat_columns("  disk0\n KB/t tps MB/s\n 20.00 10 2.00\n 10.00 0 0.00\n"),
        pair("0", "0.00")
    );
}

#[test]
fn iostat_second_header_is_skipped() {
    let out = "  disk0\n KB/t tps MB/s\n 1 2 3\n KB/t tps MB/s\n 4 5 6\n x\n";
    assert_eq!(iostat_columns(out), pair("5", "6"));
}

#[test]
fn iostat_fallback_without_header() {
    let out = "a b c\nd e f\ng\nh i j\nk l m\n";
    assert_eq!(iostat_columns(out), pair("i", "j"));
    assert!(iostat_columns("a b c\nd e f\n").is_none());
    assert!(iostat_columns("").is_none());
}
