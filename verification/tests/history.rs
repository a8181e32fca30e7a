use resident_engine::history::{push, PairedHistory, HISTORY};

#[test]
fn push_appends_below_limit() {
    let mut h: Vec<u32> = vec![1, 2, 3];
    push(&mut h, 4);
    assert_eq!(h, vec![1, 2, 3, 4]);
}

#[test]
fn push_drops_oldest_when_full() {
    let mut h: Vec<usize> = (0..HISTORY).collect();
    push(&mut h, 1000);
    assert_eq!(h.len(), HISTORY);
    assert_eq!(h[0], 1);
    assert_eq!(h[HISTORY - 1], 1000);
}

#[test]
fn history_keeps_latest_values() {
    let mut h: Vec<usize> = Vec::new();
    for v in 0..1000 {
        push(&mut h, v);
        assert!(h.len() <= HISTORY);
    }
    let expected: Vec<usize> = (1000 - HISTORY..1000).collect();
    assert_eq!(h, expected);
}

#[test]
fn history_limit_is_240() {
    assert_eq!(HISTORY, 240);
}

#[test]
fn paired_histories_stay_aligned() {
    let mut h: PairedHistory<usize, usize> = PairedHistory::new();
    assert!(h.first().is_empty() && h.second().is_empty());
    for v in 0..300 {
        h.record(v, v * 2);
        assert_eq!(h.first().len(), h.second().len());
    }
    assert_eq!(h.first().len(), HISTORY);
    assert_eq!(h.first()[0], 60);
    assert_eq!(h.second()[0], 120);
    assert_eq!(h.second()[HISTORY - 1], 598);
}
