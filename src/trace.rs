//! Turning a multi-line text into an ordered trace of instructions.
use vstd::prelude::*;

use crate::decoder::{
    chars_of, decimal, decode_line, decode_range, is_ascii_digit, lemma_decimal,
    lemma_decode_shared_load_line, ld_shared, shared_load_line,
};
use crate::instruction::{
    decode_encoded_spec, encode, encode_spec, lemma_encode_round_trip, Category, Instruction,
    STRIDE_LIMIT,
};

verus! {

/// Characters with the Unicode `White_Space` property.
pub open spec fn is_white_space(c: char) -> bool {
    let u = c as u32;
    ||| 0x09 <= u <= 0x0d
    ||| u == 0x20
    ||| u == 0x85
    ||| u == 0xa0
    ||| u == 0x1680
    ||| 0x2000 <= u <= 0x200a
    ||| u == 0x2028
    ||| u == 0x2029
    ||| u == 0x202f
    ||| u == 0x205f
    ||| u == 0x3000
}

/// A line that is empty once trimmed.
pub open spec fn is_blank(line: Seq<char>) -> bool {
    forall|i: int| 0 <= i < line.len() ==> is_white_space(#[trigger] line[i])
}

/// The pieces of `t` between line feeds, in order; a carriage return before a
/// line feed stays in its line, where it is whitespace.
pub open spec fn split_lines(t: Seq<char>) -> Seq<Seq<char>>
    decreases t.len(),
{
    if t.len() == 0 {
        seq![Seq::empty()]
    } else {
        let prev = split_lines(t.drop_last());
        if t.last() == '\n' {
            prev.push(Seq::empty())
        } else {
            prev.update(prev.len() - 1, prev.last().push(t.last()))
        }
    }
}

/// The instructions of the non-blank lines, in order.
pub open spec fn decode_lines(lines: Seq<Seq<char>>) -> Seq<Instruction>
    decreases lines.len(),
{
    if lines.len() == 0 {
        Seq::empty()
    } else {
        let prev = decode_lines(lines.drop_last());
        if is_blank(lines.last()) {
            prev
        } else {
            prev.push(decode_line(lines.last()))
        }
    }
}

/// The trace of a text.
pub open spec fn trace_of(text: Seq<char>) -> Seq<Instruction> {
    decode_lines(split_lines(text))
}

/// The trace of a text in its encoded form.
pub open spec fn encoded_trace_of(text: Seq<char>) -> Seq<u32> {
    trace_of(text).map_values(|i: Instruction| encode_spec(i))
}

fn is_white_space_exec(c: char) -> (r: bool)
    ensures
        r == is_white_space(c),
{
    let u: u32 = c as u32;
    (0x09 <= u && u <= 0x0d) || u == 0x20 || u == 0x85 || u == 0xa0 || u == 0x1680 || (0x2000 <= u
        && u <= 0x200a) || u == 0x2028 || u == 0x2029 || u == 0x202f || u == 0x205f || u == 0x3000
}

/// Whether the line `text[lo..hi]` is blank.
fn is_blank_range(text: &Vec<char>, lo: usize, hi: usize) -> (r: bool)
    requires
        lo <= hi <= text.len(),
    ensures
        r == is_blank(text@.subrange(lo as int, hi as int)),
{
    let ghost line = text@.subrange(lo as int, hi as int);
    let mut i: usize = lo;
    while i < hi
        invariant
            lo <= i <= hi <= text.len(),
            line == text@.subrange(lo as int, hi as int),
            forall|m: int| 0 <= m < i - lo ==> is_white_space(#[trigger] line[m]),
        decreases hi - i,
    {
        if !is_white_space_exec(text[i]) {
            assert(line[i - lo] == text@[i as int]);
            return false;
        }
        assert(line[i - lo] == text@[i as int]);
        i = i + 1;
    }
    true
}

fn build_trace_chars(text: &Vec<char>) -> (r: Vec<Instruction>)
    ensures
        r@ == trace_of(text@),
{
    let n: usize = text.len();
    let mut out: Vec<Instruction> = Vec::new();
    let mut start: usize = 0;
    let mut i: usize = 0;
    let ghost mut done: Seq<Seq<char>> = Seq::empty();
    assert(text@.subrange(0, 0) =~= Seq::<char>::empty());
    assert(split_lines(text@.take(0)) =~= done.push(text@.subrange(0, 0)));
    while i < n
        invariant
            n == text.len(),
            start <= i <= n,
            split_lines(text@.take(i as int)) == done.push(text@.subrange(start as int, i as int)),
            out@ == decode_lines(done),
        decreases n - i,
    {
        let ghost cur = text@.subrange(start as int, i as int);
        assert(text@.take(i + 1).drop_last() =~= text@.take(i as int));
        assert(text@.take(i + 1).last() == text@[i as int]);
        if text[i] == '\n' {
            if !is_blank_range(text, start, i) {
                let instr = decode_range(text, start, i);
                out.push(instr);
            }
            proof {
                assert(done.push(cur).drop_last() =~= done);
                done = done.push(cur);
                assert(text@.subrange(i + 1, i + 1) =~= Seq::<char>::empty());
            }
            start = i + 1;
        } else {
            proof {
                assert(cur.push(text@[i as int]) =~= text@.subrange(start as int, i + 1));
                assert(done.push(cur).update(done.len() as int, cur.push(text@[i as int])) =~= done.push(
                    text@.subrange(start as int, i + 1),
                ));
            }
        }
        i = i + 1;
    }
    assert(text@.take(n as int) =~= text@);
    let ghost last = text@.subrange(start as int, n as int);
    assert(done.push(last).drop_last() =~= done);
    if !is_blank_range(text, start, n) {
        let instr = decode_range(text, start, n);
        out.push(instr);
    }
    out
}

proof fn lemma_decode_lines_filter(lines: Seq<Seq<char>>)
    ensures
        decode_lines(lines) == lines.filter(|l: Seq<char>| !is_blank(l)).map_values(
            |l: Seq<char>| decode_line(l),
        ),
    decreases lines.len(),
{
    reveal(Seq::filter);
    if lines.len() > 0 {
        lemma_decode_lines_filter(lines.drop_last());
        let f = lines.drop_last().filter(|l: Seq<char>| !is_blank(l));
        if !is_blank(lines.last()) {
            assert(f.push(lines.last()).map_values(|l: Seq<char>| decode_line(l)) =~= f.map_values(
                |l: Seq<char>| decode_line(l),
            ).push(decode_line(lines.last())));
        }
    }
}

/// Every non-blank line of a text gives exactly one instruction, its
/// decoding, and a blank line gives none; the order of the lines is kept.
/// Every instruction of a trace is well formed.
pub proof fn lemma_trace_is_decoded_non_blank_lines(text: Seq<char>)
    ensures
        trace_of(text) == split_lines(text).filter(|l: Seq<char>| !is_blank(l)).map_values(
            |l: Seq<char>| decode_line(l),
        ),
        forall|k: int| 0 <= k < trace_of(text).len() ==> (#[trigger] trace_of(text)[k]).wf(),
{
    lemma_decode_lines_filter(split_lines(text));
}

proof fn lemma_split_single_line(t: Seq<char>)
    requires
        forall|k: int| 0 <= k < t.len() ==> #[trigger] t[k] != '\n',
    ensures
        split_lines(t) == seq![t],
    decreases t.len(),
{
    if t.len() == 0 {
        assert(t =~= Seq::<char>::empty());
    } else {
        lemma_split_single_line(t.drop_last());
        assert(t.drop_last().push(t.last()) =~= t);
        assert(seq![t.drop_last()].update(0, t) =~= seq![t]);
    }
}

/// A text made of the single line `LD.SHARED:` and a stride `s` below the
/// encoding's bound, in decimal, parses to the one word `1 | (s << 8)`, and
/// that word decodes back to the shared load with stride `s`.
pub proof fn lemma_shared_load_line_round_trip(s: u32)
    requires
        s < STRIDE_LIMIT,
    ensures
        encoded_trace_of(shared_load_line(s as nat)) == seq![1u32 | (s << 8u32)],
        decode_encoded_spec(1u32 | (s << 8u32)) == (Instruction {
            category: Category::SharedLoad,
            stride: s,
        }),
{
    let line = shared_load_line(s as nat);
    let d = decimal(s as nat);
    let i = Instruction { category: Category::SharedLoad, stride: s };
    lemma_decimal(s as nat);
    assert forall|k: int| 0 <= k < line.len() implies #[trigger] line[k] != '\n' by {
        if k < 9 {
            assert(line[k] == ld_shared()[k]);
        } else if k > 9 {
            assert(line[k] == d[k - 10]);
            assert(is_ascii_digit(d[k - 10]));
        }
    }
    lemma_split_single_line(line);
    assert(line[0] == 'L');
    assert(!is_blank(line));
    assert(seq![line].drop_last() =~= Seq::<Seq<char>>::empty());
    lemma_decode_shared_load_line(s);
    assert(seq![line].last() == line);
    assert(decode_lines(Seq::<Seq<char>>::empty()) == Seq::<Instruction>::empty());
    assert(decode_lines(seq![line]) == decode_lines(Seq::<Seq<char>>::empty()).push(
        decode_line(line),
    ));
    assert(trace_of(line) =~= seq![i]);
    assert(encoded_trace_of(line) =~= seq![encode_spec(i)]);
    lemma_encode_round_trip(i);
}

/// Decodes every non-blank line of `text`, in order.
pub fn build_trace(text: &str) -> (r: Vec<Instruction>)
    ensures
        r@ == trace_of(text@),
{
    let chars = chars_of(text);
    build_trace_chars(&chars)
}

/// Decodes every non-blank line of `ptx` and encodes it.
pub fn parse_ptx(ptx: &str) -> (r: Vec<u32>)
    ensures
        r@ == encoded_trace_of(ptx@),
{
    let trace = build_trace(ptx);
    let mut out: Vec<u32> = Vec::new();
    let mut i: usize = 0;
    while i < trace.len()
        invariant
            i <= trace.len(),
            trace@ == trace_of(ptx@),
            out@ == trace@.take(i as int).map_values(|x: Instruction| encode_spec(x)),
        decreases trace.len() - i,
    {
        out.push(encode(trace[i]));
        i = i + 1;
        assert(out@ =~= trace@.take(i as int).map_values(|x: Instruction| encode_spec(x)));
    }
    assert(trace@.take(i as int) =~= trace@);
    out
}

} // verus!
