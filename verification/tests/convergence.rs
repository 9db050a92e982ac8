use yzlm::convergence::{Criterion, Phase, Progress};

const THRESHOLD: f64 = 1e-24;

fn criterion(max_iterations: usize) -> Criterion {
    Criterion::new(THRESHOLD.to_bits(), max_iterations)
}

#[test]
fn a_criterion_keeps_its_parts() {
    let c = Criterion::new(17, 4);
    assert_eq!(c.threshold, 17);
    assert_eq!(c.max_iterations, 4);
    let u = Criterion::unbounded(17);
    assert_eq!(u.threshold, 17);
    assert_eq!(u.max_iterations, usize::MAX);
}

#[test]
fn a_run_starts_running_with_nothing_counted() {
    let p = Progress::start(&criterion(10));
    assert_eq!(p, Progress { phase: Phase::Running, iterations: 0, diff: None });
    assert!(p.is_running());
}

#[test]
fn a_cap_of_zero_leaves_nothing_to_run() {
    let c = criterion(0);
    let p = Progress::start(&c);
    assert_eq!(p, Progress { phase: Phase::Exhausted, iterations: 0, diff: None });
    assert!(!p.is_running());
    assert_eq!(p.step(&c, 0), p);
}

#[test]
fn a_change_within_the_threshold_converges() {
    let c = criterion(10);
    let diff: u64 = 7.888609052210118e-31f64.to_bits();
    let p = Progress::start(&c).step(&c, diff);
    assert_eq!(p, Progress { phase: Phase::Converged, iterations: 1, diff: Some(diff) });
    assert!(!p.is_running());
}

#[test]
fn a_change_equal_to_the_threshold_converges() {
    let c = criterion(10);
    let p = Progress::start(&c).step(&c, THRESHOLD.to_bits());
    assert_eq!(p.phase, Phase::Converged);
}

#[test]
fn a_change_just_above_the_threshold_goes_on() {
    let c = criterion(10);
    let diff: u64 = THRESHOLD.to_bits() + 1;
    let p = Progress::start(&c).step(&c, diff);
    assert_eq!(p, Progress { phase: Phase::Running, iterations: 1, diff: Some(diff) });
}

#[test]
fn no_change_at_all_converges_at_once() {
    let c = criterion(1);
    let p = Progress::start(&c).step(&c, 0.0f64.to_bits());
    assert_eq!(p, Progress { phase: Phase::Converged, iterations: 1, diff: Some(0) });
    let zero_threshold = Criterion::unbounded(0.0f64.to_bits());
    let q = Progress::start(&zero_threshold).step(&zero_threshold, (-0.0f64).to_bits());
    assert_eq!(q.phase, Phase::Converged);
    assert_eq!(q.iterations, 1);
}

#[test]
fn the_run_stops_at_the_first_settled_iteration() {
    let c = criterion(100);
    let diffs = [1.5f64, 0.2, 1e-3, 1e-9, 1e-25, 3.0, 0.0];
    let mut p = Progress::start(&c);
    for d in diffs.iter() {
        p = p.step(&c, d.to_bits());
    }
    assert_eq!(
        p,
        Progress { phase: Phase::Converged, iterations: 5, diff: Some(1e-25f64.to_bits()) }
    );
}

#[test]
fn the_cap_ends_a_run_that_does_not_settle() {
    let c = criterion(3);
    let mut p = Progress::start(&c);
    p = p.step(&c, 1.0f64.to_bits());
    assert_eq!(p.phase, Phase::Running);
    p = p.step(&c, 2.0f64.to_bits());
    assert_eq!(p.phase, Phase::Running);
    p = p.step(&c, 3.0f64.to_bits());
    assert_eq!(
        p,
        Progress { phase: Phase::Exhausted, iterations: 3, diff: Some(3.0f64.to_bits()) }
    );
    assert_eq!(p.step(&c, 0), p);
}

#[test]
fn settling_on_the_last_allowed_iteration_counts_as_converged() {
    let c = criterion(2);
    let p = Progress::start(&c).step(&c, 1.0f64.to_bits()).step(&c, 0);
    assert_eq!(p, Progress { phase: Phase::Converged, iterations: 2, diff: Some(0) });
}

#[test]
fn a_change_that_is_not_a_number_never_converges() {
    let c = criterion(4);
    let nan: u64 = f64::NAN.to_bits();
    let mut p = Progress::start(&c);
    for count in 1usize..4 {
        p = p.step(&c, nan);
        assert_eq!(p, Progress { phase: Phase::Running, iterations: count, diff: Some(nan) });
    }
    p = p.step(&c, nan);
    assert_eq!(p.phase, Phase::Exhausted);
    assert_eq!(p.iterations, 4);
}

#[test]
fn a_threshold_that_is_not_a_number_never_converges() {
    let c = Criterion::new(f64::NAN.to_bits(), 2);
    let p = Progress::start(&c).step(&c, 0).step(&c, 0);
    assert_eq!(p, Progress { phase: Phase::Exhausted, iterations: 2, diff: Some(0) });
}

#[test]
fn a_negative_threshold_is_never_met_by_a_squared_distance() {
    let c = Criterion::new((-1.0f64).to_bits(), 2);
    let p = Progress::start(&c).step(&c, 0);
    assert_eq!(p.phase, Phase::Running);
}

#[test]
fn an_unbounded_run_keeps_going() {
    let c = Criterion::unbounded(THRESHOLD.to_bits());
    let mut p = Progress::start(&c);
    for _ in 0usize..1000 {
        p = p.step(&c, 1.0f64.to_bits());
    }
    assert_eq!(p.phase, Phase::Running);
    assert_eq!(p.iterations, 1000);
}

#[test]
fn a_stopped_run_ignores_later_changes() {
    let c = criterion(10);
    let p = Progress::start(&c).step(&c, 0);
    assert_eq!(p.step(&c, 5.0f64.to_bits()), p);
    assert_eq!(p.step(&c, f64::NAN.to_bits()), p);
}

#[test]
fn a_running_state_already_at_the_cap_is_exhausted_without_a_count() {
    let c = criterion(3);
    let p = Progress { phase: Phase::Running, iterations: 3, diff: Some(9) };
    assert_eq!(p.step(&c, 0), Progress { phase: Phase::Exhausted, iterations: 3, diff: Some(9) });
    let q = Progress { phase: Phase::Running, iterations: usize::MAX, diff: None };
    let u = Criterion::unbounded(THRESHOLD.to_bits());
    assert_eq!(q.step(&u, 0).phase, Phase::Exhausted);
    assert_eq!(q.step(&u, 0).iterations, usize::MAX);
}
