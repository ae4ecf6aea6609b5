//! Decoded instructions and their packed 32-bit wire form.
use vstd::prelude::*;

verus! {

/// The closed set of instruction kinds the cost model distinguishes.
#[derive(Clone, Copy, Debug, PartialEq, Eq, Structural)]
pub enum Category {
    /// Any arithmetic or unrecognised instruction.
    Generic,
    /// A shared-memory load, whose cost depends on its stride.
    SharedLoad,
    /// A synchronous tensor-core matrix multiply.
    TensorOp,
}

/// One decoded unit of work.
#[derive(Clone, Copy, Debug, PartialEq, Eq, Structural)]
pub struct Instruction {
    pub category: Category,
    /// Access stride; meaningful for `SharedLoad` only, zero otherwise.
    pub stride: u32,
}

/// Code of a category in the low byte of an encoded instruction.
pub open spec fn category_code(c: Category) -> u32 {
    match c {
        Category::Generic => 0,
        Category::SharedLoad => 1,
        Category::TensorOp => 2,
    }
}

/// Category named by a low byte; codes outside the set read as `Generic`.
pub open spec fn category_of_code(code: u32) -> Category {
    if code == 1 {
        Category::SharedLoad
    } else if code == 2 {
        Category::TensorOp
    } else {
        Category::Generic
    }
}

/// Bound below which a stride survives encoding.
pub const STRIDE_LIMIT: u32 = 0x0100_0000;

impl Instruction {
    /// Only shared loads carry a stride.
    pub open spec fn wf(self) -> bool {
        self.category != Category::SharedLoad ==> self.stride == 0
    }

    /// The stride the encoder packs: the stride of a shared load, zero otherwise.
    pub open spec fn packed_stride(self) -> u32 {
        if self.category == Category::SharedLoad {
            self.stride
        } else {
            0
        }
    }
}

/// Encoding: `category | (stride << 8)`, truncated to 32 bits.
pub open spec fn encode_spec(i: Instruction) -> u32 {
    category_code(i.category) | (i.packed_stride() << 8u32)
}

/// Inverse of the encoding: category from the low byte, stride from the rest.
pub open spec fn decode_encoded_spec(e: u32) -> Instruction {
    let c = category_of_code(e & 0xffu32);
    Instruction { category: c, stride: if c == Category::SharedLoad { e >> 8u32 } else { 0 } }
}

/// Packs an instruction into its 32-bit wire form.
pub fn encode(instr: Instruction) -> (e: u32)
    ensures
        e == encode_spec(instr),
{
    let code: u32 = match instr.category {
        Category::Generic => 0,
        Category::SharedLoad => 1,
        Category::TensorOp => 2,
    };
    let stride: u32 = match instr.category {
        Category::SharedLoad => instr.stride,
        _ => 0,
    };
    code | (stride << 8u32)
}

/// Unpacks a 32-bit wire value into an instruction.
pub fn decode_encoded(e: u32) -> (i: Instruction)
    ensures
        i == decode_encoded_spec(e),
        i.wf(),
{
    let code: u32 = e & 0xff;
    if code == 1 {
        Instruction { category: Category::SharedLoad, stride: e >> 8u32 }
    } else if code == 2 {
        Instruction { category: Category::TensorOp, stride: 0 }
    } else {
        Instruction { category: Category::Generic, stride: 0 }
    }
}

/// Decoding an encoded instruction gives the instruction back, for every
/// well-formed instruction whose stride is below the encoding's bound.
pub proof fn lemma_encode_round_trip(i: Instruction)
    requires
        i.wf(),
        i.stride < STRIDE_LIMIT,
    ensures
        decode_encoded_spec(encode_spec(i)) == i,
{
    let c = category_code(i.category);
    let s = i.packed_stride();
    assert(c < 256);
    assert((c | (s << 8u32)) & 0xffu32 == c) by (bit_vector)
        requires
            c < 256,
    ;
    assert((c | (s << 8u32)) >> 8u32 == s) by (bit_vector)
        requires
            c < 256,
            s < 0x0100_0000,
    ;
}

} // verus!
