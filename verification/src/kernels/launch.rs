//! How a kernel is launched: its arguments, its grid, its source.
//!
//! A runtime op describes the arguments of its kernel as a list of
//! [`KernelArg`]s, in the order of the kernel's parameters. Pointers are named by
//! the buffer they stand for ([`Slot`]), so that the description is plain data.

use vstd::prelude::*;

use crate::ieee::F32Bits;
use crate::kernels::flash_attn2::{
    attention_args, attention_backward_args, causal_flash_attn2_op, flash_attn2_op,
    CausalFlashAttn2RuntimeOp, FlashAttn2RuntimeOp,
};
use crate::kernels::fused_add_rmsnorm::FusedAddRmsnormRtOp;
use crate::kernels::rope::{rope_op, RopeRtOp};
use crate::kernels::swiglu::SwigluForward;
use crate::kernels::transpose_heads::{heads_in_row, MergeHeads, TransposeHeads};
use crate::layers::embedding::TokenEmbedRuntimeOp;

verus! {

/// The buffer that a pointer argument stands for.
#[derive(Clone, Copy, Debug, PartialEq, Eq, Structural)]
pub enum Slot {
    /// The forward activation input with this index.
    Input(usize),
    /// The parameter buffer with this index.
    Param(usize),
    /// The forward output.
    Output,
    /// The gradient that arrives from the consumer.
    GradOutput,
    /// The gradient buffer of the activation input with this index.
    GradInput(usize),
    /// The gradient buffer of the parameter with this index.
    GradParam(usize),
}

/// One kernel argument.
#[derive(Clone, Copy, Debug, PartialEq, Eq, Structural)]
pub enum KernelArg {
    /// A device pointer.
    Ptr(Slot),
    /// A 32-bit integer.
    I32(i32),
    /// A single-precision value.
    F32(F32Bits),
    /// The natural logarithm of a single-precision value.
    LnF32(F32Bits),
}

/// A launch extent along x, y and z.
#[derive(Clone, Copy, Debug, PartialEq, Eq, Structural)]
pub struct Dim3 {
    pub x: u32,
    pub y: u32,
    pub z: u32,
}

/// Threads per block of every kernel here.
pub open spec fn block_dim() -> Dim3 {
    Dim3 { x: 128, y: 1, z: 1 }
}

/// A kernel together with its compile-time parameter.
#[derive(Clone, Copy, Debug, PartialEq, Eq, Structural)]
pub enum KernelId {
    FlashAttn2Forward { head_dim: i32 },
    FlashAttn2Backward { head_dim: i32 },
    FlashAttn2CausalFwd { head_dim: i32 },
    FlashAttn2CausalBwd { head_dim: i32 },
    FusedAddRmsnormForward { block_n: i32 },
    FusedAddRmsnormBackward { block_n: i32 },
    RopeForward { head_dim: i32 },
    RopeBackward { head_dim: i32 },
    SwigluForward { block_n: i32 },
    SwigluBackward { block_n: i32 },
    TransposeHeads { head_dim: i32 },
    MergeHeads { head_dim: i32 },
    /// The embedding lookup, whose runtime op is dispatched without kernel source.
    TokenEmbed,
}

/// The runtime op of a lowered graph node.
#[derive(Clone, Copy, Debug, PartialEq, Eq, Structural)]
pub enum RuntimeOp {
    FlashAttn2(FlashAttn2RuntimeOp),
    CausalFlashAttn2(CausalFlashAttn2RuntimeOp),
    FusedAddRmsnorm(FusedAddRmsnormRtOp),
    Rope(RopeRtOp),
    Swiglu(SwigluForward),
    TransposeHeads(TransposeHeads),
    MergeHeads(MergeHeads),
    TokenEmbed(TokenEmbedRuntimeOp),
}

/// A custom op lowered to a kernel and the runtime op that launches it. The
/// entry point of every kernel is [`ENTRY_POINT`].
#[derive(Clone, Copy, Debug, PartialEq, Eq, Structural)]
pub struct Lowered {
    pub kernel: KernelId,
    pub runtime_op: RuntimeOp,
}

/// The entry-point symbol of a lowered kernel.
pub const ENTRY_POINT: &'static str = "entry_point";

/// Launches go by the tensors' extents. Sizes and head dimensions that fit 32 bits reach
/// the kernels as they are. Attention reads queries, keys and values in that order, writes
/// the output and the saved sums, and is told both lengths, the scale, and minus infinity;
/// its backward pass reads the forward tensors and the incoming gradient and writes the
/// gradients of queries, keys and values in that order. A block has 128 threads, and a row
/// of `d` elements holds `d / head_dim` heads.
pub proof fn launches_go_by_extents(scale: F32Bits, nq: usize, nk: usize, d: usize, head_dim: i32)
    ensures
        ({
            let forward = attention_args(scale, nq, nk);
            let backward = attention_backward_args(scale, nq, nk);
            &&& forward.len() == 9
            &&& forall|i: int|
                0 <= i < 3 ==> #[trigger] forward[i] == KernelArg::Ptr(Slot::Input(i as usize))
            &&& forward[3] == KernelArg::Ptr(Slot::Output)
            &&& forward[4] == KernelArg::Ptr(Slot::Param(0))
            &&& nq <= i32::MAX ==> forward[5] == KernelArg::I32(nq as i32)
            &&& nk <= i32::MAX ==> forward[6] == KernelArg::I32(nk as i32)
            &&& forward[7] == KernelArg::F32(scale)
            &&& forward[8] == KernelArg::F32(0xFF80_0000)
            &&& backward.len() == 12
            &&& forall|i: int|
                0 <= i < 3 ==> #[trigger] backward[i] == KernelArg::Ptr(Slot::Input(i as usize))
            &&& backward[3] == KernelArg::Ptr(Slot::Output)
            &&& backward[4] == KernelArg::Ptr(Slot::GradOutput)
            &&& backward[5] == KernelArg::Ptr(Slot::Param(0))
            &&& forall|i: int|
                6 <= i < 9 ==> #[trigger] backward[i] == KernelArg::Ptr(
                    Slot::GradInput((i - 6) as usize),
                )
            &&& nq <= i32::MAX ==> backward[9] == KernelArg::I32(nq as i32)
            &&& nk <= i32::MAX ==> backward[10] == KernelArg::I32(nk as i32)
            &&& backward[11] == KernelArg::F32(scale)
        }),
        block_dim().x == 128 && block_dim().y == 1 && block_dim().z == 1,
        head_dim > 0 ==> heads_in_row(d, head_dim) * head_dim <= d < (heads_in_row(d, head_dim) + 1)
            * head_dim,
        nq <= i32::MAX ==> {
            &&& flash_attn2_op(nq, scale).head_dim == nq
            &&& causal_flash_attn2_op(nq, scale).head_dim == nq
            &&& rope_op(nq, scale).head_dim == nq
        },
        flash_attn2_op(nq, scale).softmax_scale == scale,
        causal_flash_attn2_op(nq, scale).softmax_scale == scale,
        rope_op(nq, scale).rope_base == scale,
{
    if head_dim > 0 {
        let q = heads_in_row(d, head_dim);
        vstd::arithmetic::div_mod::lemma_fundamental_div_mod(d as int, head_dim as int);
        assert(head_dim * q == q * head_dim) by (nonlinear_arith);
        assert((q + 1) * head_dim == q * head_dim + head_dim) by (nonlinear_arith);
    }
}

} // verus!
