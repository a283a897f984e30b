use traffloat::frame_perf;
use traffloat::perf::{Perf, MAX_FRAMES};

#[test]
fn probe_keeps_last_hundred_samples() {
    let mut perf = Perf::new();
    for i in 0..150i64 {
        perf.push("tick", i);
    }
    let samples = perf.samples("tick").unwrap();
    assert_eq!(samples.len(), MAX_FRAMES);
    assert_eq!(samples, (50..150i64).collect::<Vec<_>>());
}

#[test]
fn probe_average_is_exact_mean() {
    let mut perf = Perf::default();
    perf.push("render", 10);
    perf.push("render", 20);
    perf.push("render", 33);
    perf.push("other", -5);
    assert_eq!(perf.average("render"), Some((63, 3)));
    assert_eq!(perf.average("other"), Some((-5, 1)));
    assert_eq!(perf.average("missing"), None);
    assert_eq!(perf.samples("missing"), None);
}

#[test]
fn probes_are_independent() {
    let mut perf = Perf::new();
    perf.push("a", 1);
    perf.push("b", 2);
    perf.push("a", 3);
    assert_eq!(perf.samples("a"), Some(vec![1, 3]));
    assert_eq!(perf.samples("b"), Some(vec![2]));
}

#[test]
fn probe_average_of_extreme_samples() {
    let mut perf = Perf::new();
    for _ in 0..100 {
        perf.push("max", i64::MAX);
    }
    assert_eq!(perf.average("max"), Some((100 * i64::MAX as i128, 100)));
}

#[test]
fn frame_perf_window() {
    let mut perf = frame_perf::Perf::new();
    assert_eq!(perf.len(), 0);
    assert_eq!(perf.total_exec_us(), 0);
    for i in 1..=150u64 {
        perf.push_exec_us(i);
    }
    assert_eq!(perf.len(), 100);
    // 51 + 52 + ... + 150
    assert_eq!(perf.total_exec_us(), 10050);
}
