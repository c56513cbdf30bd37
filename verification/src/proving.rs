//! Proof backend abstraction.
//!
//! A backend turns a simulation input into proof metrics; the core ships
//! a mock backend whose metrics are a pure function of the input, so
//! callers can exercise the proving path without a prover.

use vstd::prelude::*;

verus! {

use crate::state::SimulationInput;
use vstd::string::StringExecFns;

/// Metrics reported by a proof backend.
#[derive(Debug, Clone)]
pub struct ProofMetrics {
    /// Total prover cycles.
    pub total_cycles: u64,
    /// User-code cycles, when the backend separates them.
    pub user_cycles: Option<u64>,
    /// Number of proof segments.
    pub segments: u32,
    /// Size of the serialized proof.
    pub proof_size_bytes: usize,
    /// Wall-clock proving time in milliseconds.
    pub proving_time_ms: u128,
    /// Wall-clock verification time in milliseconds, when measured.
    pub verification_time_ms: Option<u128>,
    /// Name of the backend that produced the proof.
    pub zkvm_backend: String,
}

/// A proof backend: proves a simulation input and verifies proof bytes.
pub trait ProofBackend {
    /// Generate a proof for the simulation.
    fn prove(&self, input: &SimulationInput) -> Result<ProofMetrics, String>;

    /// Verify a proof.
    fn verify(&self, proof: &[u8]) -> Result<bool, String>;
}

/// A backend that proves nothing and reports synthetic metrics.
pub struct MockBackend;

/// The synthetic cycle count of a mock proof: a thousand cycles per body
/// per tick, with wrapping 64-bit arithmetic.
pub open spec fn spec_mock_cycles(input: SimulationInput) -> u64 {
    vstd::wrapping::u64_specs::wrapping_mul(
        vstd::wrapping::u64_specs::wrapping_mul(
            input.num_steps as u64,
            input.circles@.len() as u64,
        ),
        1000u64,
    )
}

/// The mock metrics of an input: a function of the step and body counts.
pub fn mock_proof_metrics(input: &SimulationInput) -> (r: ProofMetrics)
    ensures
        r.total_cycles == spec_mock_cycles(*input),
        r.user_cycles == Some((spec_mock_cycles(*input) * 8 / 10) as u64),
        r.segments == 1,
        r.proof_size_bytes == 4200,
        r.proving_time_ms == 5000,
        r.verification_time_ms == Some(10u128),
        r.zkvm_backend@ == "Mock"@,
{
    let total_cycles = (input.num_steps as u64).wrapping_mul(input.circles.len() as u64)
        .wrapping_mul(1000u64);
    let wide: u128 = (total_cycles as u128) * 8 / 10;
    proof {
        let t = total_cycles as int;
        vstd::arithmetic::div_mod::lemma_div_is_ordered(8 * t, 10 * t, 10);
        vstd::arithmetic::div_mod::lemma_div_multiples_vanish(t, 10);
    }
    ProofMetrics {
        total_cycles,
        user_cycles: Some(wide as u64),
        segments: 1,
        proof_size_bytes: 4200,
        proving_time_ms: 5000,
        verification_time_ms: Some(10),
        zkvm_backend: <String as StringExecFns>::from_str("Mock"),
    }
}

impl ProofBackend for MockBackend {
    fn prove(&self, input: &SimulationInput) -> Result<ProofMetrics, String> {
        Ok(mock_proof_metrics(input))
    }

    fn verify(&self, _proof: &[u8]) -> Result<bool, String> {
        Ok(true)
    }
}

} // verus!
