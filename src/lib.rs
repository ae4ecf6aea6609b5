//! Cycle-cost estimation for straight-line GPU instruction traces written as
//! PTX-like assembly text.
//!
//! Text is split into lines, each non-blank line is decoded into an
//! instruction, instructions are packed into 32-bit words, and the cost model
//! sums each instruction's latency.
use vstd::prelude::*;

pub mod cost_model;
pub mod decoder;
pub mod instruction;
pub mod simulator;
pub mod trace;

pub use crate::simulator::Simulator;
pub use crate::trace::parse_ptx;

use crate::cost_model::{encoded_cost, saturate};
use crate::trace::encoded_trace_of;

verus! {

/// Latency in cycles of the trace written in `text`.
pub open spec fn simulation_result(text: Seq<char>) -> u64 {
    saturate(encoded_cost(encoded_trace_of(text)))
}

/// Runs a complete simulation: from assembly text to total latency in cycles.
pub fn run_simulation(ptx: &str) -> (r: u64)
    ensures
        r == simulation_result(ptx@),
{
    let sim = Simulator::new();
    let opcodes = parse_ptx(ptx);
    sim.simulate(opcodes.as_slice())
}

/// Running the simulation twice on identical text gives identical results:
/// the result depends on the text alone.
pub proof fn lemma_run_simulation_deterministic(a: Seq<char>, b: Seq<char>)
    requires
        a == b,
    ensures
        simulation_result(a) == simulation_result(b),
{
}

} // verus!
