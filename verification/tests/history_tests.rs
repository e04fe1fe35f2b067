use rmon::history::{DualHistory, History};

#[test]
fn history_keeps_latest_values_in_order() {
    let mut h: History<f32> = History::new(3);
    assert_eq!(h.get_data(), Vec::<f32>::new());
    assert_eq!(h.last(), None);
    h.push(1.0);
    h.push(2.0);
    assert_eq!(h.get_data(), vec![1.0, 2.0]);
    h.push(3.0);
    h.push(4.0);
    assert_eq!(h.get_data(), vec![2.0, 3.0, 4.0]);
    assert_eq!(h.last(), Some(4.0));
    assert_eq!(h.get_last(2), vec![3.0, 4.0]);
    assert_eq!(h.get_last(10), vec![2.0, 3.0, 4.0]);
}

#[test]
fn dual_history_pushes_both() {
    let mut d: DualHistory<u64> = DualHistory::new(2);
    d.push(1, 10);
    d.push(2, 20);
    d.push(3, 30);
    assert_eq!(d.incoming.get_data(), vec![2, 3]);
    assert_eq!(d.outgoing.get_data(), vec![20, 30]);
}

#[test]
fn push_drops_only_the_oldest() {
    let mut h: History<u32> = History::new(3);
    for v in 1..=10u32 {
        let before = h.get_data();
        h.push(v);
        let after = h.get_data();
        let mut expected = before.clone();
        if before.len() == 3 {
            expected.remove(0);
        }
        expected.push(v);
        assert_eq!(after, expected);
        assert!(after.len() <= 3);
    }
}
