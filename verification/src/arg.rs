//! The command line: which workload or service to run, and its settings.
use vstd::prelude::*;

verus! {

/// A benchmark workload.
#[derive(Copy, Clone, Debug, Eq, PartialEq, Structural)]
pub enum Scenario {
    PassiveInsert,
    AggressiveFill,
    MultiLevelSweep,
    MarketOrder,
    Cancel,
    CancelHotLevel,
    DrainSingleLevel,
    MixedWorkload,
    TimerOnly,
    TimerRdtsc,
    GapDetector,
}

#[derive(Debug)]
pub struct Cli {
    pub command: Option<Command>,
}

#[derive(Debug)]
pub enum Command {
    /// Run the latency benchmark and report histograms.
    Bench(BenchArgs),
    /// Run a lightweight workload driver for perf/flamegraph.
    Profile(ProfileArgs),
    /// Run a trading simulation: two strategies compete, one deliberately slower.
    Sim(SimArgs),
    /// Run as an exchange server: broadcast market data via UDP, accept orders via TCP.
    Serve(ServeArgs),
}

#[derive(Debug, Default)]
pub struct BenchArgs {
    /// Only run a single scenario.
    pub scenario: Option<Scenario>,
    /// Book depth for depth-based scenarios (default: scenario sweep).
    pub depth: Option<u64>,
    /// Number of price levels to sweep in multi-level-sweep.
    pub levels: Option<u64>,
    /// Orders per level / total orders for order-count scenarios.
    pub orders: Option<u64>,
}

#[derive(Debug)]
pub struct ProfileArgs {
    /// Scenario to drive under perf/flamegraph.
    pub scenario: Scenario,
    /// Book depth for depth-based scenarios.
    pub depth: Option<u64>,
    /// Number of price levels to sweep in multi-level-sweep.
    pub levels: Option<u64>,
    /// Orders per level / total orders for order-count scenarios.
    pub orders: Option<u64>,
    /// Repeat the selected workload N times in one process.
    pub repeat: u64,
}

#[derive(Debug)]
pub struct SimArgs {
    /// Number of simulation ticks.
    pub ticks: u64,
    /// Fast trader: market data latency in ticks.
    pub fast_md_latency: u64,
    /// Fast trader: order submission latency in ticks.
    pub fast_order_latency: u64,
    /// Slow trader: market data latency in ticks.
    pub slow_md_latency: u64,
    /// Slow trader: order submission latency in ticks.
    pub slow_order_latency: u64,
    /// Maximum position per trader.
    pub max_position: i64,
}

#[derive(Debug)]
pub struct ServeArgs {
    /// UDP port for target market data broadcast.
    pub md_port: u16,
    /// IPv4 multicast group for target market data broadcast.
    pub md_group: String,
    /// UDP port for reference price broadcast.
    pub ref_port: u16,
    /// IPv4 multicast group for reference price broadcast.
    pub ref_group: String,
    /// TCP port for order gateway.
    pub order_port: u16,
    /// Exchange ticks per second.
    pub tick_rate: u64,
    /// Total ticks to run (0 = unlimited).
    pub ticks: u64,
    /// Log when one exchange loop exceeds the configured tick interval.
    pub debug_tick_overrun: bool,
    /// Log every stale quote opportunity and whether it is filled or expired.
    pub debug_stale_quotes: bool,
}

/// The values to sweep: the one given, or else the defaults.
pub fn values(custom: Option<u64>, defaults: &[u64]) -> (v: Vec<u64>)
    ensures
        v@ == (match custom {
            Some(x) => seq![x],
            None => defaults@,
        }),
{
    match custom {
        Some(x) => {
            let mut v: Vec<u64> = Vec::new();
            v.push(x);
            proof {
                assert(v@ =~= seq![x]);
            }
            v
        },
        None => {
            let mut v: Vec<u64> = Vec::new();
            let mut i: usize = 0;
            while i < defaults.len()
                invariant
                    0 <= i <= defaults.len(),
                    v@ == defaults@.take(i as int),
                decreases defaults.len() - i,
            {
                v.push(defaults[i]);
                proof {
                    assert(v@ =~= defaults@.take(i + 1));
                }
                i = i + 1;
            }
            proof {
                assert(defaults@.take(defaults.len() as int) =~= defaults@);
            }
            v
        },
    }
}

} // verus!
