use resident_engine::gpu::{begin_gpu_frame, decode_ticks, GpuProfiler, CAPACITY};

fn bytes_of(ticks: &[u64]) -> Vec<u8> {
    ticks.iter().flat_map(|t| t.to_le_bytes()).collect()
}

fn labeled(p: &mut GpuProfiler, labels: &[&str]) {
    for l in labels {
        p.timestamp(l.to_string());
    }
}

#[test]
fn disabled_profiler_gives_no_slots() {
    let mut p = GpuProfiler::new(false);
    assert!(!p.enabled());
    assert_eq!(p.timestamp("a".to_string()), None);
    assert_eq!(p.start_resolve(), None);
}

#[test]
fn timestamps_get_consecutive_slots() {
    let mut p = GpuProfiler::new(true);
    assert!(p.enabled());
    assert_eq!(p.timestamp("start".to_string()), Some(0));
    assert_eq!(p.timestamp("shadow".to_string()), Some(1));
    assert_eq!(p.timestamp("main".to_string()), Some(2));
    assert_eq!(p.start_resolve(), Some(3));
}

#[test]
fn timestamp_capacity_is_enforced() {
    let mut p = GpuProfiler::new(true);
    for i in 0..CAPACITY {
        assert_eq!(p.timestamp(format!("t{i}")), Some(i));
    }
    assert_eq!(p.timestamp("extra".to_string()), None);
    assert_eq!(p.start_resolve(), Some(CAPACITY));
}

#[test]
fn begin_frame_clears_pending_labels() {
    let mut p = GpuProfiler::new(true);
    labeled(&mut p, &["a", "b"]);
    begin_gpu_frame(&mut p);
    assert_eq!(p.start_resolve(), None);
    assert_eq!(p.timestamp("c".to_string()), Some(0));
}

#[test]
fn a_single_timestamp_is_not_resolved() {
    let mut p = GpuProfiler::new(true);
    labeled(&mut p, &["only"]);
    assert_eq!(p.start_resolve(), None);
    p.finish_resolve(&bytes_of(&[5]));
    assert!(p.results().is_empty());
    assert_eq!(p.total_ticks(), 0);
    assert!(p.total_history().is_empty());
}

#[test]
fn resolve_reports_segments_and_total() {
    let mut p = GpuProfiler::new(true);
    labeled(&mut p, &["start", "shadow", "main"]);
    assert_eq!(p.start_resolve(), Some(3));
    p.finish_resolve(&bytes_of(&[100, 250, 400]));
    assert_eq!(
        p.results(),
        &vec![("shadow".to_string(), 150), ("main".to_string(), 150)]
    );
    assert_eq!(p.total_ticks(), 300);
    assert_eq!(p.total_history(), &vec![300]);
    assert_eq!(p.timestamp_count(), 3);
    let sum: u64 = p.results().iter().map(|r| r.1).sum();
    assert_eq!(sum, p.total_ticks());
}

#[test]
fn backwards_clock_saturates_to_zero() {
    let mut p = GpuProfiler::new(true);
    labeled(&mut p, &["a", "b", "c"]);
    p.finish_resolve(&bytes_of(&[100, 50, 400]));
    assert_eq!(p.results(), &vec![("b".to_string(), 0), ("c".to_string(), 350)]);
    assert_eq!(p.total_ticks(), 300);
}

#[test]
fn start_resolve_forgets_last_frame() {
    let mut p = GpuProfiler::new(true);
    labeled(&mut p, &["a", "b"]);
    p.finish_resolve(&bytes_of(&[1, 9]));
    assert_eq!(p.total_ticks(), 8);
    begin_gpu_frame(&mut p);
    assert_eq!(p.start_resolve(), None);
    assert!(p.results().is_empty());
    assert_eq!(p.total_ticks(), 0);
    assert_eq!(p.timestamp_count(), 0);
    assert_eq!(p.total_history(), &vec![8]);
}

#[test]
fn decode_reads_little_endian_and_zero_fills() {
    let data = bytes_of(&[0x0102_0304_0506_0708, 42]);
    assert_eq!(decode_ticks(&data, 3), vec![0x0102_0304_0506_0708, 42, 0]);
    assert_eq!(decode_ticks(&[1, 0, 0, 0, 0, 0, 0, 0, 7], 2), vec![1, 0]);
    assert_eq!(decode_ticks(&[], 0), Vec::<u64>::new());
}

#[test]
fn short_readback_reads_missing_ticks_as_zero() {
    let mut p = GpuProfiler::new(true);
    labeled(&mut p, &["a", "b"]);
    p.finish_resolve(&bytes_of(&[7]));
    assert_eq!(p.results(), &vec![("b".to_string(), 0)]);
    assert_eq!(p.total_ticks(), 0);
}
