use rmon::controls::Controls;

#[test]
fn quit_keys() {
    for key in [b'q', b'Q', 3u8] {
        let mut c = Controls::new();
        c.handle_key(key, 2, 2);
        assert!(!c.running);
    }
    let mut c = Controls::new();
    c.handle_key(b'x', 2, 2);
    assert!(c.running);
}

#[test]
fn cycling_wraps_around() {
    let mut c = Controls::new();
    c.handle_key(b'd', 3, 0);
    assert_eq!(c.selected_disk, 1);
    c.handle_key(b'D', 3, 0);
    c.handle_key(b'd', 3, 0);
    assert_eq!(c.selected_disk, 0);
    c.handle_key(b'n', 3, 0);
    assert_eq!(c.selected_interface, 0);
    c.handle_key(b'N', 0, 2);
    assert_eq!(c.selected_interface, 1);
    c.handle_key(b'n', 0, 2);
    assert_eq!(c.selected_interface, 0);
}

#[test]
fn cycling_back_to_start() {
    let mut c = Controls::new();
    c.selected_disk = 2;
    for _ in 0..5 {
        c.handle_key(b'd', 5, 1);
    }
    assert_eq!(c.selected_disk, 2);
    c.selected_disk = 9;
    c.handle_key(b'd', 4, 1);
    assert_eq!(c.selected_disk, 2);
}
