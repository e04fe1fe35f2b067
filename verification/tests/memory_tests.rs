use rmon::memory::{
    memory_info_from_stats, parse_page_size, parse_total_memory, parse_vm_stats, parse_vm_value, swap_value_parts,
    VmStats,
};

const VM_STAT: &str = "Mach Virtual Memory Statistics: (page size of 16384 bytes)
Pages free:                               12345.
Pages active:                            200000.
Pages inactive:                          190000.
Pages speculative:                         5000.
Pages throttled:                              0.
Pages wired down:                         80000.
Pages purgeable:                           3000.
\"Translation faults\":                  123456789.
Pages copy-on-write:                    1234567.
File-backed pages:                        90000.
";

#[test]
fn page_size() {
    assert_eq!(parse_page_size(VM_STAT), Some(16384));
    assert_eq!(parse_page_size("(page size of 4096)"), None);
    assert_eq!(parse_page_size("nothing here"), None);
    assert_eq!(parse_page_size("page size of x bytes"), None);
}

#[test]
fn vm_values() {
    assert_eq!(parse_vm_value(VM_STAT, "Pages wired down"), Some(80000));
    assert_eq!(parse_vm_value(VM_STAT, "Translation faults"), Some(123456789));
    assert_eq!(parse_vm_value(VM_STAT, "Pages missing"), None);
    assert_eq!(parse_vm_value("Pages free 12\n", "Pages free"), None);
    assert_eq!(parse_vm_value("Pages free: 1:2\n", "Pages free"), Some(1));
    assert_eq!(parse_vm_value("Pages free: none.\n", "Pages free"), None);
}

#[test]
fn vm_stats() {
    let (page, st) = parse_vm_stats(VM_STAT).unwrap();
    assert_eq!(page, 16384);
    assert_eq!(
        (st.free, st.active, st.inactive, st.speculative, st.wired, st.purgeable, st.file_backed),
        (12345, 200000, 190000, 5000, 80000, 3000, 90000)
    );
    let (_, partial) = parse_vm_stats("(page size of 4096 bytes)\nPages free: 7.\n").unwrap();
    assert_eq!((partial.free, partial.active), (7, 0));
    assert!(parse_vm_stats("Pages free: 7.\n").is_none());
}

#[test]
fn total_memory() {
    assert_eq!(parse_total_memory("17179869184\n"), Some(17179869184));
    assert_eq!(parse_total_memory(" x "), None);
}

#[test]
fn swap_parts() {
    let out = "vm.swapusage: total = 2048.00M  used = 512.25M  free = 1535.75M  (encrypted)";
    assert_eq!(swap_value_parts(out, "total"), Some(("2048.00".to_string(), 1048576)));
    assert_eq!(swap_value_parts(out, "used"), Some(("512.25".to_string(), 1048576)));
    assert_eq!(swap_value_parts("total = 1.5G ", "total"), Some(("1.5".to_string(), 1073741824)));
    assert_eq!(swap_value_parts("total = 3K", "total"), Some(("3".to_string(), 1024)));
    assert_eq!(swap_value_parts("total = 3 ", "total"), Some(("3".to_string(), 1)));
    assert_eq!(swap_value_parts("total = 3", "total"), None);
    assert_eq!(swap_value_parts("total: 3M", "total"), None);
}

#[test]
fn memory_figures() {
    let st = VmStats { free: 12345, active: 200000, inactive: 190000, speculative: 5000, wired: 80000, purgeable: 3000, file_backed: 90000 };
    let m = memory_info_from_stats(17179869184, 16384, &st, 1073741824, 536870912).unwrap();
    assert_eq!(m.physical_total, 17179869184);
    assert_eq!(m.free, 284180480);
    assert_eq!(m.used, 17179869184 - 284180480);
    assert_eq!(m.cached, 1523712000);
    assert_eq!(m.wired, 1310720000);
    assert_eq!(m.active, 3276800000);
    assert_eq!(m.inactive, 3112960000);
    assert_eq!((m.swap_total, m.swap_used), (1073741824, 536870912));
}

#[test]
fn memory_figures_overflow() {
    let st = VmStats { free: 2, active: 0, inactive: 0, speculative: 0, wired: 0, purgeable: 0, file_backed: 0 };
    assert!(memory_info_from_stats(1, 16384, &st, 0, 0).is_none());
    let big = VmStats { free: 0, active: u64::MAX, inactive: 0, speculative: 0, wired: 0, purgeable: 0, file_backed: 0 };
    assert!(memory_info_from_stats(100, 2, &big, 0, 0).is_none());
}
