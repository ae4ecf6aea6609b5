use rust_tooling::decoder::decode;
use rust_tooling::instruction::{decode_encoded, encode, Category, Instruction};
use rust_tooling::parse_ptx;
use rust_tooling::trace::build_trace;

fn shared(stride: u32) -> Instruction {
    Instruction { category: Category::SharedLoad, stride }
}

fn tensor() -> Instruction {
    Instruction { category: Category::TensorOp, stride: 0 }
}

fn generic() -> Instruction {
    Instruction { category: Category::Generic, stride: 0 }
}

#[test]
fn test_parse_ptx() {
    let ptx = "LD.SHARED\nMMA.SYNC\nADD\n";
    let opcodes = parse_ptx(ptx);
    assert_eq!(opcodes, vec![1 | (1 << 8), 2, 0]);
}

#[test]
fn test_parse_with_stride() {
    let ptx = "LD.SHARED:32\n";
    let opcodes = parse_ptx(ptx);
    assert_eq!(opcodes, vec![1 | (32 << 8)]);
}

#[test]
fn decode_classifies_each_kind() {
    assert_eq!(decode("LD.SHARED"), shared(1));
    assert_eq!(decode("LD.SHARED:32"), shared(32));
    assert_eq!(decode("MMA.SYNC"), tensor());
    assert_eq!(decode("ADD"), generic());
    assert_eq!(decode("LD.GLOBAL"), generic());
    assert_eq!(decode("MMA"), generic());
}

#[test]
fn decode_ignores_case_and_surrounding_whitespace() {
    assert_eq!(decode("  ld.shared:8\t"), shared(8));
    assert_eq!(decode("Mma.Sync\r"), tensor());
    assert_eq!(decode("LD.\u{17f}HARED:2"), shared(2));
}

#[test]
fn decode_finds_mnemonic_inside_line() {
    assert_eq!(decode("x LD.SHARED:4 y"), shared(4));
    assert_eq!(decode("@p mma.sync.aligned"), tensor());
    assert_eq!(decode("LD.SHARED:5 LD.SHARED:9"), shared(5));
}

#[test]
fn shared_load_wins_over_tensor_op() {
    assert_eq!(decode("MMA.SYNC LD.SHARED:16"), shared(16));
}

#[test]
fn unparsable_stride_defaults_to_one() {
    assert_eq!(decode("LD.SHARED:"), shared(1));
    assert_eq!(decode("LD.SHARED:abc"), shared(1));
    assert_eq!(decode("LD.SHARED;32"), shared(1));
    assert_eq!(decode("LD.SHARED:4294967296"), shared(1));
    assert_eq!(decode("LD.SHARED:99999999999999999999"), shared(1));
}

#[test]
fn stride_reads_whole_digit_run() {
    assert_eq!(decode("LD.SHARED:4294967295"), shared(u32::MAX));
    assert_eq!(decode("LD.SHARED:0007x"), shared(7));
    assert_eq!(decode("LD.SHARED:0"), shared(0));
    assert_eq!(decode("LD.SHARED:12.5"), shared(12));
}

#[test]
fn encode_packs_category_and_stride() {
    assert_eq!(encode(shared(1)), 257);
    assert_eq!(encode(shared(32)), 1 | (32 << 8));
    assert_eq!(encode(tensor()), 2);
    assert_eq!(encode(generic()), 0);
    assert_eq!(encode(Instruction { category: Category::TensorOp, stride: 9 }), 2);
    assert_eq!(encode(shared(0x0100_0001)), 1 | (1 << 8));
}

#[test]
fn decode_encoded_inverts_encode() {
    for i in [shared(0), shared(1), shared(32), shared(0x00ff_ffff), tensor(), generic()] {
        assert_eq!(decode_encoded(encode(i)), i);
    }
    assert_eq!(decode_encoded(0x2002), tensor());
    assert_eq!(decode_encoded(0x0105), generic());
    assert_eq!(decode_encoded(0xffff_ff01), shared(0x00ff_ffff));
}

#[test]
fn build_trace_keeps_order_and_skips_blank_lines() {
    let trace = build_trace("ADD\n\n\nADD");
    assert_eq!(trace, vec![generic(), generic()]);
    let trace = build_trace("\r\nMMA.SYNC\r\n \u{3000}\nLD.SHARED:2\r\nSUB");
    assert_eq!(trace, vec![tensor(), shared(2), generic()]);
    assert_eq!(build_trace(""), vec![]);
}

#[test]
fn lone_carriage_return_does_not_split_lines() {
    assert_eq!(build_trace("ADD\rADD"), vec![generic()]);
}

#[test]
fn non_ascii_digit_in_stride_defaults_to_one() {
    assert_eq!(decode("LD.SHARED:5\u{663}"), shared(1));
    assert_eq!(decode("LD.SHARED:\u{663}"), shared(1));
    assert_eq!(decode("LD.SHARED:12\u{1d7ce}4"), shared(1));
    assert_eq!(parse_ptx("LD.SHARED:5\u{663}\n"), vec![1 | (1 << 8)]);
}

#[test]
fn stride_stops_at_a_non_digit_character() {
    // U+00B2 SUPERSCRIPT TWO is numeric but not a decimal digit.
    assert_eq!(decode("LD.SHARED:5\u{b2}"), shared(5));
    assert_eq!(decode("LD.SHARED:5 \u{663}"), shared(5));
}

/// The encoded words that the pattern `(?i)LD\.SHARED(?::(\d+))?` and its
/// tensor-core companion give for one line.
fn regex_word(ld: &regex::Regex, mma: &regex::Regex, line: &str) -> u32 {
    if let Some(caps) = ld.captures(line.trim()) {
        let stride: u32 = caps.get(1).map(|m| m.as_str().parse().unwrap_or(1)).unwrap_or(1);
        1 | (stride << 8)
    } else if mma.is_match(line.trim()) {
        2
    } else {
        0
    }
}

#[test]
fn decode_agrees_with_regular_expression() {
    let ld = regex::Regex::new(r"(?i)LD\.SHARED(?::(\d+))?").unwrap();
    let mma = regex::Regex::new(r"(?i)MMA\.SYNC").unwrap();
    let lines = [
        "LD.SHARED", "ld.shared:32", "LD.\u{17f}HARED:3", "LD.SHARED:5\u{663}",
        "LD.SHARED:\u{663}7", "LD.SHARED:\u{ff11}", "LD.SHARED:4294967295", "LD.SHARED:4294967296",
        "LD.SHARED:0", "LD.SHARED:016777217", "x ld.Shared:9 MMA.SYNC", "mma.sync",
        "MMA.\u{17f}YNC", "ADD", "LD.SHARE", "LD SHARED:4", "LD.SHARED:: 4", "\u{3000}LD.SHARED:8\u{3000}",
        "LD.SHARED:1\u{b2}", "LD.SHARED:12.5",
    ];
    for line in lines {
        let expected = regex_word(&ld, &mma, line);
        assert_eq!(parse_ptx(line), vec![expected], "line {:?}", line);
        assert_eq!(encode(decode(line)), expected, "line {:?}", line);
    }
}

#[test]
fn written_stride_round_trips_through_encoding() {
    for s in [0u32, 1, 7, 32, 1000, 65535, 0x00ff_ffff] {
        for mnemonic in ["LD.SHARED", "ld.shared"] {
            let words = parse_ptx(&format!("{}:{}", mnemonic, s));
            assert_eq!(words, vec![1 | (s << 8)]);
            assert_eq!(words[0] & 0xff, 1);
            assert_eq!(words[0] >> 8, s);
            assert_eq!(decode_encoded(words[0]), shared(s));
        }
    }
}
