use rust_tooling::cost_model::{shared_load_cycles, simulate, simulate_encoded};
use rust_tooling::instruction::{Category, Instruction};
use rust_tooling::{parse_ptx, run_simulation, Simulator};

#[test]
fn test_basic_math() {
    // Two ALU operations = 2 cycles
    let latency = run_simulation("ADD\nADD");
    assert_eq!(latency, 2, "Two ADD instructions should take 2 cycles");
}

#[test]
fn test_tensor_core() {
    let latency = run_simulation("MMA.SYNC");
    assert_eq!(latency, 16, "MMA.SYNC should take 16 cycles");
}

#[test]
fn test_mixed() {
    // LD.SHARED (stride=1, no conflicts = 1 cycle) + MMA.SYNC (16 cycles) = 17 cycles
    let latency = run_simulation("LD.SHARED\nMMA.SYNC");
    assert_eq!(latency, 17, "LD.SHARED + MMA.SYNC should take 17 cycles");
}

#[test]
fn three_kinds_cost_eighteen() {
    assert_eq!(run_simulation("LD.SHARED\nMMA.SYNC\nADD\n"), 18);
}

#[test]
fn full_bank_conflict_costs_thirty_two() {
    assert_eq!(run_simulation("LD.SHARED:32\n"), 32);
}

#[test]
fn blank_lines_cost_nothing() {
    assert_eq!(run_simulation("ADD\n\n\nADD"), 2);
    assert_eq!(run_simulation("ADD\n   \n\t\r\nADD\n"), 2);
}

#[test]
fn empty_trace_costs_zero() {
    assert_eq!(simulate(&[]), 0);
    assert_eq!(simulate_encoded(&[]), 0);
    assert_eq!(Simulator::new().simulate(&[]), 0);
    assert_eq!(run_simulation(""), 0);
    assert_eq!(run_simulation("\n  \n"), 0);
}

#[test]
fn repeated_runs_agree() {
    let text = "LD.SHARED:8\nMMA.SYNC\nFMA\nld.shared:3\n";
    let first = run_simulation(text);
    let second = run_simulation(text);
    assert_eq!(first, second);
    assert_eq!(first, 8 + 16 + 1 + 1);
}

#[test]
fn bank_conflict_degree_is_gcd_with_bank_count() {
    assert_eq!(shared_load_cycles(0), 1);
    assert_eq!(shared_load_cycles(1), 1);
    assert_eq!(shared_load_cycles(2), 2);
    assert_eq!(shared_load_cycles(3), 1);
    assert_eq!(shared_load_cycles(12), 4);
    assert_eq!(shared_load_cycles(48), 16);
    assert_eq!(shared_load_cycles(64), 32);
    assert_eq!(shared_load_cycles(u32::MAX), 1);
}

#[test]
fn simulate_sums_in_order() {
    let trace = vec![
        Instruction { category: Category::SharedLoad, stride: 16 },
        Instruction { category: Category::TensorOp, stride: 0 },
        Instruction { category: Category::Generic, stride: 0 },
        Instruction { category: Category::SharedLoad, stride: 0 },
    ];
    assert_eq!(simulate(&trace), 16 + 16 + 1 + 1);
}

#[test]
fn unknown_category_code_costs_one() {
    assert_eq!(simulate_encoded(&[7, 0xff, 3 | (32 << 8)]), 3);
}

#[test]
fn simulator_matches_encoded_form() {
    let words = parse_ptx("LD.SHARED:4\nMMA.SYNC\n");
    let sim = Simulator::default();
    assert_eq!(sim.simulate(&words), 4 + 16);
    assert_eq!(simulate_encoded(&words), 20);
}

#[test]
fn stride_beyond_encoding_bound_is_truncated() {
    // 2^24 loses every set bit when shifted into 32 bits: the encoded load has stride 0.
    assert_eq!(parse_ptx("LD.SHARED:16777216"), vec![1]);
    assert_eq!(run_simulation("LD.SHARED:16777216"), 1);
}
