//! Classification of one line of assembly text.
//!
//! A line is searched, case-insensitively, for the shared-load mnemonic
//! `LD.SHARED` (optionally followed by `:` and a decimal stride), and failing
//! that for the tensor-core mnemonic `MMA.SYNC`; any other line is generic.
//! The search finds a mnemonic anywhere in the line, so whitespace around the
//! instruction never changes the outcome and the line needs no trimming.
use vstd::prelude::*;

use crate::instruction::{Category, Instruction};

verus! {

/// `c` equals the pattern character `p` up to case. Letters fold under Unicode
/// simple case folding, which for the letters used here adds one character
/// beyond the two ASCII cases: U+017F LATIN SMALL LETTER LONG S folds to `S`.
pub open spec fn char_matches(c: char, p: char) -> bool {
    ||| c == p
    ||| (0x41 <= p as u32 <= 0x5a && c as u32 == p as u32 + 32)
    ||| (p == 'S' && c == '\u{17f}')
}

/// The shared-memory load mnemonic.
pub open spec fn ld_shared() -> Seq<char> {
    seq!['L', 'D', '.', 'S', 'H', 'A', 'R', 'E', 'D']
}

/// The tensor-core matrix-multiply mnemonic.
pub open spec fn mma_sync() -> Seq<char> {
    seq!['M', 'M', 'A', '.', 'S', 'Y', 'N', 'C']
}

/// `pat` occurs, up to case, in `line` at position `k`.
pub open spec fn matches_at(line: Seq<char>, pat: Seq<char>, k: int) -> bool {
    &&& 0 <= k
    &&& k + pat.len() <= line.len()
    &&& forall|j: int| 0 <= j < pat.len() ==> char_matches(#[trigger] line[k + j], pat[j])
}

/// The leftmost position at or after `k` where `pat` occurs in `line`, or -1.
pub open spec fn first_match(line: Seq<char>, pat: Seq<char>, k: int) -> int
    decreases line.len() - k,
{
    if k < 0 || k + pat.len() > line.len() {
        -1
    } else if matches_at(line, pat, k) {
        k
    } else {
        first_match(line, pat, k + 1)
    }
}

pub open spec fn is_ascii_digit(c: char) -> bool {
    0x30 <= c as u32 <= 0x39
}

/// Characters of Unicode general category `Nd` (decimal digits), as of
/// Unicode 16.0.0: the digits a decimal stride is read from.
pub open spec fn is_decimal_digit(c: char) -> bool {
    let u = c as u32;
    ||| 0x30 <= u <= 0x39
    ||| 0x660 <= u <= 0x669
    ||| 0x6f0 <= u <= 0x6f9
    ||| 0x7c0 <= u <= 0x7c9
    ||| 0x966 <= u <= 0x96f
    ||| 0x9e6 <= u <= 0x9ef
    ||| 0xa66 <= u <= 0xa6f
    ||| 0xae6 <= u <= 0xaef
    ||| 0xb66 <= u <= 0xb6f
    ||| 0xbe6 <= u <= 0xbef
    ||| 0xc66 <= u <= 0xc6f
    ||| 0xce6 <= u <= 0xcef
    ||| 0xd66 <= u <= 0xd6f
    ||| 0xde6 <= u <= 0xdef
    ||| 0xe50 <= u <= 0xe59
    ||| 0xed0 <= u <= 0xed9
    ||| 0xf20 <= u <= 0xf29
    ||| 0x1040 <= u <= 0x1049
    ||| 0x1090 <= u <= 0x1099
    ||| 0x17e0 <= u <= 0x17e9
    ||| 0x1810 <= u <= 0x1819
    ||| 0x1946 <= u <= 0x194f
    ||| 0x19d0 <= u <= 0x19d9
    ||| 0x1a80 <= u <= 0x1a89
    ||| 0x1a90 <= u <= 0x1a99
    ||| 0x1b50 <= u <= 0x1b59
    ||| 0x1bb0 <= u <= 0x1bb9
    ||| 0x1c40 <= u <= 0x1c49
    ||| 0x1c50 <= u <= 0x1c59
    ||| 0xa620 <= u <= 0xa629
    ||| 0xa8d0 <= u <= 0xa8d9
    ||| 0xa900 <= u <= 0xa909
    ||| 0xa9d0 <= u <= 0xa9d9
    ||| 0xa9f0 <= u <= 0xa9f9
    ||| 0xaa50 <= u <= 0xaa59
    ||| 0xabf0 <= u <= 0xabf9
    ||| 0xff10 <= u <= 0xff19
    ||| 0x104a0 <= u <= 0x104a9
    ||| 0x10d30 <= u <= 0x10d39
    ||| 0x10d40 <= u <= 0x10d49
    ||| 0x11066 <= u <= 0x1106f
    ||| 0x110f0 <= u <= 0x110f9
    ||| 0x11136 <= u <= 0x1113f
    ||| 0x111d0 <= u <= 0x111d9
    ||| 0x112f0 <= u <= 0x112f9
    ||| 0x11450 <= u <= 0x11459
    ||| 0x114d0 <= u <= 0x114d9
    ||| 0x11650 <= u <= 0x11659
    ||| 0x116c0 <= u <= 0x116c9
    ||| 0x116d0 <= u <= 0x116e3
    ||| 0x11730 <= u <= 0x11739
    ||| 0x118e0 <= u <= 0x118e9
    ||| 0x11950 <= u <= 0x11959
    ||| 0x11bf0 <= u <= 0x11bf9
    ||| 0x11c50 <= u <= 0x11c59
    ||| 0x11d50 <= u <= 0x11d59
    ||| 0x11da0 <= u <= 0x11da9
    ||| 0x11f50 <= u <= 0x11f59
    ||| 0x16130 <= u <= 0x16139
    ||| 0x16a60 <= u <= 0x16a69
    ||| 0x16ac0 <= u <= 0x16ac9
    ||| 0x16b50 <= u <= 0x16b59
    ||| 0x16d70 <= u <= 0x16d79
    ||| 0x1ccf0 <= u <= 0x1ccf9
    ||| 0x1d7ce <= u <= 0x1d7ff
    ||| 0x1e140 <= u <= 0x1e149
    ||| 0x1e2f0 <= u <= 0x1e2f9
    ||| 0x1e4f0 <= u <= 0x1e4f9
    ||| 0x1e5f1 <= u <= 0x1e5fa
    ||| 0x1e950 <= u <= 0x1e959
    ||| 0x1fbf0 <= u <= 0x1fbf9
}

/// Every character of `d` is an ASCII digit.
pub open spec fn all_ascii_digits(d: Seq<char>) -> bool {
    forall|k: int| 0 <= k < d.len() ==> is_ascii_digit(#[trigger] d[k])
}

pub open spec fn digit_value(c: char) -> nat {
    (c as u32 - 0x30) as nat
}

/// The decimal value of a string of digits.
pub open spec fn digits_value(d: Seq<char>) -> nat
    decreases d.len(),
{
    if d.len() == 0 {
        0
    } else {
        digits_value(d.drop_last()) * 10 + digit_value(d.last())
    }
}

/// Length of the run of decimal digits (of any script) that starts at `i`.
pub open spec fn digit_run(line: Seq<char>, i: int) -> nat
    decreases line.len() - i,
{
    if 0 <= i < line.len() && is_decimal_digit(line[i]) {
        1 + digit_run(line, i + 1)
    } else {
        0
    }
}

/// The stride written right after a shared-load mnemonic that ends at `i`:
/// `:` and the longest run of decimal digits that follows, when that run is
/// made of ASCII digits only and its value fits in 32 bits; 1 in every other
/// case, among them a run that holds a digit of another script.
pub open spec fn stride_at(line: Seq<char>, i: int) -> u32 {
    let n = digit_run(line, i + 1);
    if 0 <= i < line.len() && line[i] == ':' && n > 0 {
        let d = line.subrange(i + 1, i + 1 + n);
        let v = digits_value(d);
        if all_ascii_digits(d) && v <= u32::MAX {
            v as u32
        } else {
            1
        }
    } else {
        1
    }
}

/// The instruction a line stands for.
pub open spec fn decode_line(line: Seq<char>) -> Instruction {
    let p = first_match(line, ld_shared(), 0);
    if p >= 0 {
        Instruction { category: Category::SharedLoad, stride: stride_at(line, p + 9) }
    } else if first_match(line, mma_sync(), 0) >= 0 {
        Instruction { category: Category::TensorOp, stride: 0 }
    } else {
        Instruction { category: Category::Generic, stride: 0 }
    }
}

/// Bound at which a stride stops fitting in 32 bits.
const STRIDE_OVERFLOW: u64 = 0x1_0000_0000;

fn char_matches_exec(c: char, p: char) -> (r: bool)
    ensures
        r == char_matches(c, p),
{
    let cp: u32 = p as u32;
    c == p || (0x41 <= cp && cp <= 0x5a && c as u32 == cp + 32) || (p == 'S' && c == '\u{17f}')
}

fn is_ascii_digit_exec(c: char) -> (r: bool)
    ensures
        r == is_ascii_digit(c),
{
    0x30 <= c as u32 && c as u32 <= 0x39
}

fn is_decimal_digit_exec(c: char) -> (r: bool)
    ensures
        r == is_decimal_digit(c),
{
    let u: u32 = c as u32;
    (0x30 <= u && u <= 0x39) ||
    (0x660 <= u && u <= 0x669) ||
    (0x6f0 <= u && u <= 0x6f9) ||
    (0x7c0 <= u && u <= 0x7c9) ||
    (0x966 <= u && u <= 0x96f) ||
    (0x9e6 <= u && u <= 0x9ef) ||
    (0xa66 <= u && u <= 0xa6f) ||
    (0xae6 <= u && u <= 0xaef) ||
    (0xb66 <= u && u <= 0xb6f) ||
    (0xbe6 <= u && u <= 0xbef) ||
    (0xc66 <= u && u <= 0xc6f) ||
    (0xce6 <= u && u <= 0xcef) ||
    (0xd66 <= u && u <= 0xd6f) ||
    (0xde6 <= u && u <= 0xdef) ||
    (0xe50 <= u && u <= 0xe59) ||
    (0xed0 <= u && u <= 0xed9) ||
    (0xf20 <= u && u <= 0xf29) ||
    (0x1040 <= u && u <= 0x1049) ||
    (0x1090 <= u && u <= 0x1099) ||
    (0x17e0 <= u && u <= 0x17e9) ||
    (0x1810 <= u && u <= 0x1819) ||
    (0x1946 <= u && u <= 0x194f) ||
    (0x19d0 <= u && u <= 0x19d9) ||
    (0x1a80 <= u && u <= 0x1a89) ||
    (0x1a90 <= u && u <= 0x1a99) ||
    (0x1b50 <= u && u <= 0x1b59) ||
    (0x1bb0 <= u && u <= 0x1bb9) ||
    (0x1c40 <= u && u <= 0x1c49) ||
    (0x1c50 <= u && u <= 0x1c59) ||
    (0xa620 <= u && u <= 0xa629) ||
    (0xa8d0 <= u && u <= 0xa8d9) ||
    (0xa900 <= u && u <= 0xa909) ||
    (0xa9d0 <= u && u <= 0xa9d9) ||
    (0xa9f0 <= u && u <= 0xa9f9) ||
    (0xaa50 <= u && u <= 0xaa59) ||
    (0xabf0 <= u && u <= 0xabf9) ||
    (0xff10 <= u && u <= 0xff19) ||
    (0x104a0 <= u && u <= 0x104a9) ||
    (0x10d30 <= u && u <= 0x10d39) ||
    (0x10d40 <= u && u <= 0x10d49) ||
    (0x11066 <= u && u <= 0x1106f) ||
    (0x110f0 <= u && u <= 0x110f9) ||
    (0x11136 <= u && u <= 0x1113f) ||
    (0x111d0 <= u && u <= 0x111d9) ||
    (0x112f0 <= u && u <= 0x112f9) ||
    (0x11450 <= u && u <= 0x11459) ||
    (0x114d0 <= u && u <= 0x114d9) ||
    (0x11650 <= u && u <= 0x11659) ||
    (0x116c0 <= u && u <= 0x116c9) ||
    (0x116d0 <= u && u <= 0x116e3) ||
    (0x11730 <= u && u <= 0x11739) ||
    (0x118e0 <= u && u <= 0x118e9) ||
    (0x11950 <= u && u <= 0x11959) ||
    (0x11bf0 <= u && u <= 0x11bf9) ||
    (0x11c50 <= u && u <= 0x11c59) ||
    (0x11d50 <= u && u <= 0x11d59) ||
    (0x11da0 <= u && u <= 0x11da9) ||
    (0x11f50 <= u && u <= 0x11f59) ||
    (0x16130 <= u && u <= 0x16139) ||
    (0x16a60 <= u && u <= 0x16a69) ||
    (0x16ac0 <= u && u <= 0x16ac9) ||
    (0x16b50 <= u && u <= 0x16b59) ||
    (0x16d70 <= u && u <= 0x16d79) ||
    (0x1ccf0 <= u && u <= 0x1ccf9) ||
    (0x1d7ce <= u && u <= 0x1d7ff) ||
    (0x1e140 <= u && u <= 0x1e149) ||
    (0x1e2f0 <= u && u <= 0x1e2f9) ||
    (0x1e4f0 <= u && u <= 0x1e4f9) ||
    (0x1e5f1 <= u && u <= 0x1e5fa) ||
    (0x1e950 <= u && u <= 0x1e959) ||
    (0x1fbf0 <= u && u <= 0x1fbf9)
}

fn ld_shared_pattern() -> (r: Vec<char>)
    ensures
        r@ == ld_shared(),
{
    let mut v: Vec<char> = Vec::new();
    v.push('L');
    v.push('D');
    v.push('.');
    v.push('S');
    v.push('H');
    v.push('A');
    v.push('R');
    v.push('E');
    v.push('D');
    assert(v@ =~= ld_shared());
    v
}

fn mma_sync_pattern() -> (r: Vec<char>)
    ensures
        r@ == mma_sync(),
{
    let mut v: Vec<char> = Vec::new();
    v.push('M');
    v.push('M');
    v.push('A');
    v.push('.');
    v.push('S');
    v.push('Y');
    v.push('N');
    v.push('C');
    assert(v@ =~= mma_sync());
    v
}

/// Whether `pat` occurs up to case at absolute position `k` of the line
/// `text[lo..hi]`.
fn matches_at_exec(text: &Vec<char>, lo: usize, hi: usize, pat: &Vec<char>, k: usize) -> (r: bool)
    requires
        lo <= k <= hi <= text.len(),
        pat.len() <= hi - k,
    ensures
        r == matches_at(text@.subrange(lo as int, hi as int), pat@, k - lo),
{
    let ghost line = text@.subrange(lo as int, hi as int);
    let mut j: usize = 0;
    while j < pat.len()
        invariant
            lo <= k <= hi <= text.len(),
            pat.len() <= hi - k,
            j <= pat.len(),
            line == text@.subrange(lo as int, hi as int),
            forall|m: int| 0 <= m < j ==> char_matches(#[trigger] line[k - lo + m], pat@[m]),
        decreases pat.len() - j,
    {
        if !char_matches_exec(text[k + j], pat[j]) {
            assert(line[k - lo + j] == text@[k + j as int]);
            return false;
        }
        assert(line[k - lo + j] == text@[k + j as int]);
        j = j + 1;
    }
    true
}

/// The leftmost absolute position of `pat` in the line `text[lo..hi]`.
fn find_pattern(text: &Vec<char>, lo: usize, hi: usize, pat: &Vec<char>) -> (r: Option<usize>)
    requires
        lo <= hi <= text.len(),
    ensures
        match r {
            Some(k) => lo <= k && first_match(text@.subrange(lo as int, hi as int), pat@, 0) == k - lo,
            None => first_match(text@.subrange(lo as int, hi as int), pat@, 0) == -1,
        },
{
    let ghost line = text@.subrange(lo as int, hi as int);
    let mut k: usize = lo;
    while k <= hi && pat.len() <= hi - k
        invariant
            lo <= k <= text.len(),
            lo <= hi <= text.len(),
            line == text@.subrange(lo as int, hi as int),
            first_match(line, pat@, 0) == first_match(line, pat@, k - lo),
        decreases hi - k + 1,
    {
        if matches_at_exec(text, lo, hi, pat, k) {
            return Some(k);
        }
        k = k + 1;
    }
    None
}

proof fn lemma_digit_run(line: Seq<char>, s: int, e: int)
    requires
        0 <= s <= e <= line.len(),
        forall|m: int| s <= m < e ==> is_decimal_digit(#[trigger] line[m]),
        e == line.len() || !is_decimal_digit(line[e]),
    ensures
        digit_run(line, s) == e - s,
    decreases e - s,
{
    if s < e {
        lemma_digit_run(line, s + 1, e);
    }
}

/// The stride after a shared-load mnemonic of the line `text[lo..hi]` that
/// ends at absolute position `i`.
fn stride_after(text: &Vec<char>, lo: usize, hi: usize, i: usize) -> (s: u32)
    requires
        lo <= i <= hi <= text.len(),
    ensures
        s == stride_at(text@.subrange(lo as int, hi as int), i - lo),
{
    let ghost line = text@.subrange(lo as int, hi as int);
    if i < hi && text[i] == ':' {
        assert(line[i - lo] == text@[i as int]);
        let mut j: usize = i + 1;
        let mut acc: u64 = 0;
        let mut ascii: bool = true;
        while j < hi && is_decimal_digit_exec(text[j])
            invariant
                lo <= i < j <= hi <= text.len(),
                line == text@.subrange(lo as int, hi as int),
                forall|m: int| i - lo + 1 <= m < j - lo ==> is_decimal_digit(#[trigger] line[m]),
                ascii == all_ascii_digits(line.subrange(i - lo + 1, j - lo)),
                acc <= STRIDE_OVERFLOW,
                ascii ==> acc == if digits_value(line.subrange(i - lo + 1, j - lo))
                    < STRIDE_OVERFLOW {
                    digits_value(line.subrange(i - lo + 1, j - lo))
                } else {
                    STRIDE_OVERFLOW as nat
                },
            decreases hi - j,
        {
            let c: char = text[j];
            let ghost prev = line.subrange(i - lo + 1, j - lo);
            let ghost next = line.subrange(i - lo + 1, j - lo + 1);
            assert(line[j - lo] == c);
            assert(next.drop_last() =~= prev);
            assert(next.last() == c);
            assert(digits_value(next) == digits_value(prev) * 10 + digit_value(c));
            if !is_ascii_digit_exec(c) {
                ascii = false;
            } else if ascii && acc < STRIDE_OVERFLOW {
                let d: u64 = (c as u32 - 0x30) as u64;
                let v: u64 = acc * 10 + d;
                acc = if v < STRIDE_OVERFLOW {
                    v
                } else {
                    STRIDE_OVERFLOW
                };
            }
            assert(ascii == all_ascii_digits(next)) by {
                if ascii {
                    assert forall|k: int| 0 <= k < next.len() implies is_ascii_digit(
                        #[trigger] next[k],
                    ) by {
                        if k < prev.len() {
                            assert(next[k] == prev[k]);
                        }
                    }
                } else if all_ascii_digits(next) {
                    assert forall|k: int| 0 <= k < prev.len() implies is_ascii_digit(
                        #[trigger] prev[k],
                    ) by {
                        assert(next[k] == prev[k]);
                    }
                    assert(is_ascii_digit(next[next.len() - 1]));
                }
            }
            j = j + 1;
        }
        proof {
            assert(j == hi || !is_decimal_digit(line[j - lo])) by {
                if j < hi {
                    assert(line[j - lo] == text@[j as int]);
                }
            }
            lemma_digit_run(line, i - lo + 1, j - lo);
        }
        if j == i + 1 || !ascii {
            1
        } else if acc <= 0xffff_ffff {
            acc as u32
        } else {
            1
        }
    } else {
        1
    }
}

/// Decodes the line `text[lo..hi]`.
pub(crate) fn decode_range(text: &Vec<char>, lo: usize, hi: usize) -> (r: Instruction)
    requires
        lo <= hi <= text.len(),
    ensures
        r == decode_line(text@.subrange(lo as int, hi as int)),
        r.wf(),
{
    let ld = ld_shared_pattern();
    match find_pattern(text, lo, hi, &ld) {
        Some(k) => {
            let ghost line = text@.subrange(lo as int, hi as int);
            assert(matches_at(line, ld_shared(), k - lo)) by {
                lemma_first_match_found(line, ld_shared(), 0);
            }
            Instruction { category: Category::SharedLoad, stride: stride_after(text, lo, hi, k + 9) }
        },
        None => {
            let mma = mma_sync_pattern();
            if find_pattern(text, lo, hi, &mma).is_some() {
                Instruction { category: Category::TensorOp, stride: 0 }
            } else {
                Instruction { category: Category::Generic, stride: 0 }
            }
        },
    }
}

/// A position that `first_match` returns is a match.
pub proof fn lemma_first_match_found(line: Seq<char>, pat: Seq<char>, k: int)
    requires
        first_match(line, pat, k) >= 0,
    ensures
        matches_at(line, pat, first_match(line, pat, k)),
        first_match(line, pat, k) >= k,
    decreases line.len() - k,
{
    if !(k < 0 || k + pat.len() > line.len()) && !matches_at(line, pat, k) {
        lemma_first_match_found(line, pat, k + 1);
    }
}

/// The ASCII digit for `d < 10`.
pub open spec fn digit_char(d: nat) -> char {
    seq!['0', '1', '2', '3', '4', '5', '6', '7', '8', '9'][d as int]
}

/// The decimal rendering of `n`: its digits, most significant first, with no
/// leading zero.
pub open spec fn decimal(n: nat) -> Seq<char>
    decreases n,
{
    if n < 10 {
        seq![digit_char(n)]
    } else {
        decimal(n / 10).push(digit_char(n % 10))
    }
}

/// A shared-load line with an explicit stride: `LD.SHARED:` and the stride
/// in decimal.
pub open spec fn shared_load_line(stride: nat) -> Seq<char> {
    ld_shared() + seq![':'] + decimal(stride)
}

proof fn lemma_digit_char(d: nat)
    requires
        d < 10,
    ensures
        is_ascii_digit(digit_char(d)),
        digit_value(digit_char(d)) == d,
{
    let t = seq!['0', '1', '2', '3', '4', '5', '6', '7', '8', '9'];
    assert(t[0] == '0' && t[1] == '1' && t[2] == '2' && t[3] == '3' && t[4] == '4');
    assert(t[5] == '5' && t[6] == '6' && t[7] == '7' && t[8] == '8' && t[9] == '9');
}

/// The decimal rendering of `n` is a non-empty run of ASCII digits whose
/// value is `n`.
pub proof fn lemma_decimal(n: nat)
    ensures
        decimal(n).len() >= 1,
        all_ascii_digits(decimal(n)),
        digits_value(decimal(n)) == n,
    decreases n,
{
    if n < 10 {
        lemma_digit_char(n);
        assert(decimal(n).drop_last() =~= Seq::<char>::empty());
        assert(decimal(n).last() == digit_char(n));
        assert(digits_value(Seq::<char>::empty()) == 0);
        assert(digits_value(decimal(n)) == digits_value(Seq::<char>::empty()) * 10 + digit_value(
            digit_char(n),
        ));
    } else {
        lemma_decimal(n / 10);
        lemma_digit_char(n % 10);
        let d = decimal(n);
        assert(d.drop_last() =~= decimal(n / 10));
        assert(n == (n / 10) * 10 + n % 10);
        assert(d.last() == digit_char(n % 10));
        assert(digits_value(d) == digits_value(decimal(n / 10)) * 10 + digit_value(
            digit_char(n % 10),
        ));
        assert forall|k: int| 0 <= k < d.len() implies is_ascii_digit(#[trigger] d[k]) by {
            if k < d.len() - 1 {
                assert(d[k] == decimal(n / 10)[k]);
            }
        }
    }
}

/// A line that writes a shared load with stride `s` in decimal decodes to
/// exactly that shared load.
pub proof fn lemma_decode_shared_load_line(s: u32)
    ensures
        decode_line(shared_load_line(s as nat)) == (Instruction {
            category: Category::SharedLoad,
            stride: s,
        }),
{
    let line = shared_load_line(s as nat);
    let d = decimal(s as nat);
    lemma_decimal(s as nat);
    assert(line.len() == 10 + d.len());
    assert forall|j: int| 0 <= j < ld_shared().len() implies char_matches(
        #[trigger] line[0 + j],
        ld_shared()[j],
    ) by {
        assert(line[j] == ld_shared()[j]);
    }
    assert(matches_at(line, ld_shared(), 0));
    assert(first_match(line, ld_shared(), 0) == 0);
    assert(line[9] == ':');
    assert forall|m: int| 10 <= m < line.len() implies is_decimal_digit(#[trigger] line[m]) by {
        assert(line[m] == d[m - 10]);
        assert(is_ascii_digit(d[m - 10]));
    }
    lemma_digit_run(line, 10, line.len() as int);
    assert(line.subrange(10, line.len() as int) =~= d);
}

/// The characters of `s`, in order.
pub(crate) fn chars_of(s: &str) -> (r: Vec<char>)
    ensures
        r@ == s@,
{
    let mut v: Vec<char> = Vec::new();
    for c in it: s.chars()
        invariant
            v@ == it.seq().take(it.index() as int),
    {
        v.push(c);
    }
    v
}

/// Classifies one line of assembly text. Decoding is total: every line
/// yields exactly one instruction, and only a shared load carries a stride.
pub fn decode(line: &str) -> (r: Instruction)
    ensures
        r == decode_line(line@),
        r.wf(),
{
    let text = chars_of(line);
    let r = decode_range(&text, 0, text.len());
    assert(text@.subrange(0, text@.len() as int) =~= line@);
    r
}

} // verus!
