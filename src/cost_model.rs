//! Bank-conflict cost model.
use vstd::prelude::*;

use crate::instruction::{
    decode_encoded, decode_encoded_spec, encode_spec, lemma_encode_round_trip, Category,
    Instruction, STRIDE_LIMIT,
};

verus! {

/// Number of shared-memory banks in the modelled core.
pub const BANK_COUNT: u32 = 32;

/// Greatest common divisor, by Euclid's rule.
pub open spec fn gcd(a: nat, b: nat) -> nat
    decreases b,
{
    if b == 0 {
        a
    } else {
        gcd(b, a % b)
    }
}

/// Computes `gcd(a, b)`.
pub fn gcd_u32(a: u32, b: u32) -> (r: u32)
    ensures
        r as nat == gcd(a as nat, b as nat),
{
    let mut x: u32 = a;
    let mut y: u32 = b;
    while y != 0
        invariant
            gcd(x as nat, y as nat) == gcd(a as nat, b as nat),
        decreases y,
    {
        let t: u32 = x % y;
        x = y;
        y = t;
    }
    x
}

/// Cycles taken by an arithmetic or unrecognised instruction.
pub const GENERIC_CYCLES: u64 = 1;

/// Cycles taken by a tensor-core matrix multiply.
pub const TENSOR_OP_CYCLES: u64 = 16;

/// Cycles taken by a shared load: the number of accessors that collide on one
/// bank, `gcd(stride, BANK_COUNT)`, at least 1; a zero stride counts as 1.
pub open spec fn shared_load_cost(stride: u32) -> nat {
    if stride == 0 {
        1
    } else {
        let g = gcd(stride as nat, BANK_COUNT as nat);
        if g < 1 {
            1
        } else {
            g
        }
    }
}

/// Cycles taken by one instruction.
pub open spec fn instruction_cost(i: Instruction) -> nat {
    match i.category {
        Category::Generic => GENERIC_CYCLES as nat,
        Category::TensorOp => TENSOR_OP_CYCLES as nat,
        Category::SharedLoad => shared_load_cost(i.stride),
    }
}

/// Total cycles of a trace: the sum of its instructions' costs.
pub open spec fn trace_cost(t: Seq<Instruction>) -> nat
    decreases t.len(),
{
    if t.len() == 0 {
        0
    } else {
        trace_cost(t.drop_last()) + instruction_cost(t.last())
    }
}

/// Total cycles of an encoded trace.
pub open spec fn encoded_cost(t: Seq<u32>) -> nat
    decreases t.len(),
{
    if t.len() == 0 {
        0
    } else {
        encoded_cost(t.drop_last()) + instruction_cost(decode_encoded_spec(t.last()))
    }
}

/// A cycle count as reported: exact whenever it fits in 64 bits.
pub open spec fn saturate(n: nat) -> u64 {
    if n <= u64::MAX {
        n as u64
    } else {
        u64::MAX
    }
}

/// Cycles taken by a shared load with the given stride.
pub fn shared_load_cycles(stride: u32) -> (c: u64)
    ensures
        c == shared_load_cost(stride),
{
    if stride == 0 {
        1
    } else {
        let g: u32 = gcd_u32(stride, BANK_COUNT);
        if g < 1 {
            1
        } else {
            g as u64
        }
    }
}

/// Cycles taken by one instruction.
pub fn instruction_cycles(i: Instruction) -> (c: u64)
    ensures
        c == instruction_cost(i),
{
    match i.category {
        Category::Generic => GENERIC_CYCLES,
        Category::TensorOp => TENSOR_OP_CYCLES,
        Category::SharedLoad => shared_load_cycles(i.stride),
    }
}

/// Total cycles of a trace, accumulated in source order.
pub fn simulate(trace: &[Instruction]) -> (r: u64)
    ensures
        r == saturate(trace_cost(trace@)),
{
    let mut acc: u64 = 0;
    let mut i: usize = 0;
    while i < trace.len()
        invariant
            i <= trace.len(),
            acc == saturate(trace_cost(trace@.take(i as int))),
        decreases trace.len() - i,
    {
        assert(trace@.take(i + 1).drop_last() =~= trace@.take(i as int));
        let c: u64 = instruction_cycles(trace[i]);
        acc = acc.saturating_add(c);
        i = i + 1;
    }
    assert(trace@.take(i as int) =~= trace@);
    acc
}

/// Total cycles of an encoded trace, accumulated in order.
pub fn simulate_encoded(instructions: &[u32]) -> (r: u64)
    ensures
        r == saturate(encoded_cost(instructions@)),
{
    let mut acc: u64 = 0;
    let mut i: usize = 0;
    while i < instructions.len()
        invariant
            i <= instructions.len(),
            acc == saturate(encoded_cost(instructions@.take(i as int))),
        decreases instructions.len() - i,
    {
        assert(instructions@.take(i + 1).drop_last() =~= instructions@.take(i as int));
        let c: u64 = instruction_cycles(decode_encoded(instructions[i]));
        acc = acc.saturating_add(c);
        i = i + 1;
    }
    assert(instructions@.take(i as int) =~= instructions@);
    acc
}

/// The empty trace costs nothing, in either form.
pub proof fn lemma_empty_trace_costs_nothing()
    ensures
        trace_cost(Seq::empty()) == 0,
        encoded_cost(Seq::empty()) == 0,
        saturate(0) == 0,
{
}

/// Costing the encoded form of a trace gives the cost of the trace itself,
/// when every instruction is well formed with a stride below the encoding's
/// bound.
pub proof fn lemma_encoded_cost_matches(t: Seq<Instruction>)
    requires
        forall|k: int| 0 <= k < t.len() ==> (#[trigger] t[k]).wf() && t[k].stride < STRIDE_LIMIT,
    ensures
        encoded_cost(t.map_values(|i: Instruction| encode_spec(i))) == trace_cost(t),
    decreases t.len(),
{
    if t.len() > 0 {
        let e = t.map_values(|i: Instruction| encode_spec(i));
        assert(e.drop_last() =~= t.drop_last().map_values(|i: Instruction| encode_spec(i)));
        lemma_encoded_cost_matches(t.drop_last());
        lemma_encode_round_trip(t.last());
    }
}

} // verus!
