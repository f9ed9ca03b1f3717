//! How a scan probes its ports: the mode that applies, the timeout, the
//! number of retries and whether the ports are probed one by one or in
//! parallel.
use vstd::prelude::*;
use crate::config::{OperatingMode, ScanConfig};

verus! {

/// In what order the ports are probed.
#[derive(PartialEq, Eq, Clone, Copy, Debug, Structural)]
pub enum ScanStrategy {
    /// One attempt per port, one port after the other, with a random pause
    /// between two ports.
    OneByOne,
    /// Attempts with retries, one port after the other.
    OneByOneWithRetries,
    /// Attempts with retries, the ports spread over worker threads.
    InParallelWithRetries,
}

/// The decisions a scan starts from.
pub struct ScanPlan {
    /// The mode that applies to this scan.
    pub mode: OperatingMode,
    pub strategy: ScanStrategy,
    /// The timeout of one attempt, or `None` when it is derived from the
    /// measured round-trip times.
    pub fixed_timeout_ms: Option<u64>,
    /// How many attempts may follow the first one on a port.
    pub retries: u32,
}

/// The mode that applies: a scan of a single port is always careful.
pub open spec fn effective_mode(port_count: nat, mode: OperatingMode) -> OperatingMode {
    if port_count == 1 {
        OperatingMode::Safe
    } else {
        mode
    }
}

/// The timeout of a careful scan.
pub open spec fn safe_timeout_ms() -> u64 {
    2000
}

/// The number of retries of a fast scan.
pub open spec fn fast_retries() -> u32 {
    2
}

/// A fast scan of more ports than this runs in parallel.
pub open spec fn parallel_threshold() -> nat {
    10
}

/// Decides how a scan of `config` probes its ports.
pub fn plan_scan(config: &ScanConfig) -> (p: ScanPlan)
    ensures
        p.mode == effective_mode(config@.port_range.len(), config@.working_mode),
        p.mode == OperatingMode::Safe ==> {
            &&& p.strategy == ScanStrategy::OneByOne
            &&& p.fixed_timeout_ms == Some(safe_timeout_ms())
            &&& p.retries == 0
        },
        p.mode == OperatingMode::Fast ==> {
            &&& p.fixed_timeout_ms is None
            &&& p.retries == fast_retries()
            &&& p.strategy == if config@.port_range.len() > parallel_threshold() {
                ScanStrategy::InParallelWithRetries
            } else {
                ScanStrategy::OneByOneWithRetries
            }
        },
{
    let n = config.port_range.len();
    let mode = if n == 1 {
        OperatingMode::Safe
    } else {
        config.working_mode
    };
    match mode {
        OperatingMode::Safe => ScanPlan {
            mode,
            strategy: ScanStrategy::OneByOne,
            fixed_timeout_ms: Some(2000),
            retries: 0,
        },
        OperatingMode::Fast => ScanPlan {
            mode,
            strategy: if n > 10 {
                ScanStrategy::InParallelWithRetries
            } else {
                ScanStrategy::OneByOneWithRetries
            },
            fixed_timeout_ms: None,
            retries: 2,
        },
    }
}

/// A scan of one port is careful whatever mode was chosen; a careful scan
/// waits 2000 ms per attempt and makes one attempt per port; a fast scan
/// makes up to three attempts per port, and runs in parallel exactly when it
/// has more than ten ports.
pub proof fn law_plan_by_port_count(n: nat, mode: OperatingMode)
    ensures
        n == 1 ==> effective_mode(n, mode) == OperatingMode::Safe,
        n != 1 ==> effective_mode(n, mode) == mode,
        safe_timeout_ms() == 2000,
        fast_retries() + 1 == 3,
        n > parallel_threshold() <==> n >= 11,
{
}

} // verus!
