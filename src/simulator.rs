//! The simulator handle callers hold; it keeps no state between calls.
use vstd::prelude::*;

use crate::cost_model::{encoded_cost, saturate, simulate_encoded};

verus! {

/// A stateless cost-model simulator over encoded instruction streams.
pub struct Simulator {}

impl Simulator {
    /// Creates a simulator.
    pub fn new() -> (s: Simulator)
        ensures
            s == (Simulator {}),
    {
        Simulator {}
    }

    /// Total latency, in cycles, of an encoded instruction stream. The stream
    /// is only read, and nothing of it is kept after the call.
    pub fn simulate(&self, instructions: &[u32]) -> (r: u64)
        ensures
            r == saturate(encoded_cost(instructions@)),
    {
        simulate_encoded(instructions)
    }
}

impl Default for Simulator {
    fn default() -> (s: Simulator)
        ensures
            s == (Simulator {}),
    {
        Simulator::new()
    }
}

} // verus!
