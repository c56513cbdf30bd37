//! Simulation runner configuration and result records.
//!
//! The runner itself orchestrates outside work — proving and rendering —
//! so only its decisions live here: the configuration it is driven by,
//! and the result record it hands back.

use vstd::prelude::*;

verus! {

use crate::state::SimulationTrace;
use crate::proving::ProofMetrics;

/// Which proving backend a run should use.
#[derive(Debug, Clone, PartialEq, Eq, Structural)]
pub enum ZkVmBackend {
    Mock,
    Risc0,
    Sp1,
}

/// Configuration for a simulation run.
#[derive(Debug, Clone, PartialEq, Eq, Structural)]
pub struct RunnerConfig {
    /// Enable visualization.
    pub visualize: bool,
    /// Generate a proof of the run.
    pub prove: bool,
    /// Proving backend to use.
    pub backend: ZkVmBackend,
    /// Verbose output.
    pub verbose: bool,
}

/// Result of a run: the trace, the proof metrics when a proof was made,
/// and the wall-clock time spent.
#[derive(Debug, Clone)]
pub struct RunnerResult {
    /// The recorded simulation trace.
    pub trace: SimulationTrace,
    /// Metrics of the proof, if one was generated.
    pub proof_metrics: Option<ProofMetrics>,
    /// Total execution time in milliseconds.
    pub execution_time_ms: u128,
}

/// A simulation runner holding its configuration.
pub struct SimulationRunner {
    /// The configuration every run uses.
    pub config: RunnerConfig,
}

impl SimulationRunner {
    /// Create a new runner with the given configuration.
    pub fn new(config: RunnerConfig) -> (r: SimulationRunner)
        ensures
            r.config == config,
    {
        SimulationRunner { config }
    }
}

} // verus!
