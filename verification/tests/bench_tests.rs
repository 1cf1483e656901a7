use matching_engine::arg::{values, BenchArgs, Scenario};
use matching_engine::bench::harness::{ITERS, SWEEP_ITERS};
use matching_engine::bench::scenarios::{
    aggressive_fill, cancel, cancel_hot_level, drain_single_level, market_order, mixed_workload,
    multi_level_sweep, passive_insert, profile_aggressive_fill, profile_cancel,
    profile_cancel_hot_level, profile_drain_single_level, profile_market_order,
    profile_mixed_workload, profile_multi_level_sweep, profile_passive_insert, profile_timer_only,
    timer_only, timer_rdtsc,
};
use matching_engine::bench::timer::{calibrate, elapsed_ns, keep_opaque, start};

#[test]
fn values_prefers_the_given_one() {
    assert_eq!(values(Some(5), &[1, 2, 3]), vec![5]);
    assert_eq!(values(None, &[1, 2, 3]), vec![1, 2, 3]);
    assert_eq!(values(None, &[]), Vec::<u64>::new());
}

#[test]
fn bench_args_default_runs_everything() {
    let a = BenchArgs::default();
    assert!(a.scenario.is_none() && a.depth.is_none() && a.levels.is_none() && a.orders.is_none());
    assert_ne!(Scenario::Cancel, Scenario::CancelHotLevel);
}

#[test]
fn timer_reads_are_monotonic_enough() {
    calibrate();
    let t = start();
    let mut x = 17u64;
    keep_opaque(&mut x);
    assert_eq!(x, 17);
    let _ns = elapsed_ns(t);
}

#[test]
fn timed_workloads_record_every_measured_operation() {
    assert_eq!(passive_insert(100).len() as u64, ITERS);
    assert_eq!(aggressive_fill(100).len() as u64, ITERS);
    assert_eq!(market_order(100).len() as u64, ITERS);
    assert_eq!(cancel(100).len() as u64, ITERS);
    assert_eq!(mixed_workload(100).len() as u64, ITERS);
    assert_eq!(timer_only().len() as u64, ITERS);
    assert_eq!(timer_rdtsc().len() as u64, ITERS);
}

#[test]
fn timed_level_workloads() {
    assert_eq!(multi_level_sweep(5).len() as u64, SWEEP_ITERS);
    assert_eq!(drain_single_level(10).len() as u64, SWEEP_ITERS);
    assert_eq!(cancel_hot_level(10).len(), 10);
    assert_eq!(cancel_hot_level(0).len(), 0);
}

#[test]
fn profile_workloads_run() {
    profile_passive_insert(0);
    profile_aggressive_fill(100);
    profile_market_order(100);
    profile_cancel(100);
    profile_cancel(0);
    profile_timer_only();
}

#[test]
fn profile_level_workloads_run() {
    profile_multi_level_sweep(1);
    profile_cancel_hot_level(10);
    profile_drain_single_level(10);
    profile_mixed_workload(100);
}
