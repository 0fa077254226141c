//! Launch descriptions: arguments, grids, parameter buffers, lowering.

use teenyformers::graph::{CustomOp, Shape};
use teenyformers::kernels::flash_attn2::{
    CausalFlashAttn2Op, CausalFlashAttn2RuntimeOp, FlashAttn2Op, FlashAttn2RuntimeOp,
};
use teenyformers::kernels::fused_add_rmsnorm::{
    FusedAddRmsnormForward, FusedAddRmsnormOp, FusedAddRmsnormRtOp,
};
use teenyformers::kernels::launch::{
    Dim3, KernelArg, KernelId, RuntimeOp, Slot, ENTRY_POINT,
};
use teenyformers::kernels::rope::{RopeOp, RopeRtOp};
use teenyformers::kernels::swiglu::{SwigluForward, SwigluOp};
use teenyformers::kernels::transpose_heads::{
    MergeHeads, MergeHeadsOp, TransposeHeads, TransposeHeadsOp,
};
use teenyformers::layers::embedding::{TokenEmbedOp, TokenEmbedRuntimeOp};

const THREADS: Dim3 = Dim3 { x: 128, y: 1, z: 1 };

fn grid(x: u32, y: u32) -> Dim3 {
    Dim3 { x, y, z: 1 }
}

fn input(i: usize) -> KernelArg {
    KernelArg::Ptr(Slot::Input(i))
}

fn param(i: usize) -> KernelArg {
    KernelArg::Ptr(Slot::Param(i))
}

fn grad_input(i: usize) -> KernelArg {
    KernelArg::Ptr(Slot::GradInput(i))
}

const OUTPUT: KernelArg = KernelArg::Ptr(Slot::Output);
const GRAD: KernelArg = KernelArg::Ptr(Slot::GradOutput);

#[test]
fn entry_point_symbol() {
    assert_eq!(ENTRY_POINT, "entry_point");
}

#[test]
fn attention_launches() {
    let scale = 0.125_f32.to_bits();
    let q = [6, 5, 8];
    let k = [6, 7, 8];
    let inputs: [&[usize]; 3] = [&q, &k, &k];
    let op = FlashAttn2RuntimeOp::new(8, scale);
    let causal = CausalFlashAttn2RuntimeOp::new(8, scale);
    assert_eq!(op.n_activation_inputs(), 3);
    assert_eq!(op.param_shapes(&inputs), vec![vec![6, 5]]);
    assert_eq!(causal.param_shapes(&inputs), vec![vec![6, 5]]);
    let forward = vec![
        input(0),
        input(1),
        input(2),
        OUTPUT,
        param(0),
        KernelArg::I32(5),
        KernelArg::I32(7),
        KernelArg::F32(scale),
        KernelArg::F32(f32::NEG_INFINITY.to_bits()),
    ];
    assert_eq!(op.pack_args(&inputs, &q), forward);
    assert_eq!(causal.pack_args(&inputs, &q), forward);
    let backward = vec![
        input(0),
        input(1),
        input(2),
        OUTPUT,
        GRAD,
        param(0),
        grad_input(0),
        grad_input(1),
        grad_input(2),
        KernelArg::I32(5),
        KernelArg::I32(7),
        KernelArg::F32(scale),
    ];
    assert_eq!(op.pack_backward_args(&inputs, &q), backward);
    assert_eq!(causal.pack_backward_args(&inputs, &q), backward);
    assert_eq!(op.grid(&q), grid(5, 6));
    assert_eq!(causal.backward_grid(&q), grid(5, 6));
    assert_eq!(op.block(), THREADS);
    assert!(op.has_backward());
}

#[test]
fn attention_lowering() {
    let op = FlashAttn2Op::new(64, 1);
    let l = op.lower();
    assert_eq!(l.kernel, KernelId::FlashAttn2Forward { head_dim: 64 });
    assert!(matches!(l.runtime_op, RuntimeOp::FlashAttn2(_)));
    assert_eq!(op.lower_backward(), KernelId::FlashAttn2Backward { head_dim: 64 });
    let op = CausalFlashAttn2Op::new(64, 1);
    assert_eq!(op.lower().kernel, KernelId::FlashAttn2CausalFwd { head_dim: 64 });
    assert_eq!(op.lower_backward(), KernelId::FlashAttn2CausalBwd { head_dim: 64 });
}

#[test]
fn rope_launches() {
    let base = 10_000.0_f32.to_bits();
    let op = RopeRtOp::new(64, base);
    let shape = [8, 11, 64];
    assert_eq!(
        op.pack_args(&shape),
        vec![input(0), OUTPUT, KernelArg::I32(11), KernelArg::LnF32(base)]
    );
    assert_eq!(
        op.pack_backward_args(&shape),
        vec![GRAD, grad_input(0), KernelArg::I32(11), KernelArg::LnF32(base)]
    );
    assert_eq!(op.grid(&shape), grid(11, 8));
    assert_eq!(op.backward_grid(&shape), grid(11, 8));
    assert!(op.param_shapes().is_empty());
    let node = RopeOp::new(64, base);
    assert_eq!(node.lower().kernel, KernelId::RopeForward { head_dim: 64 });
    assert_eq!(node.lower_backward(), KernelId::RopeBackward { head_dim: 64 });
}

#[test]
fn swiglu_launches() {
    let op = SwigluForward::new(1024);
    let shape = [3, 384];
    assert_eq!(
        op.pack_args(&shape),
        vec![input(0), OUTPUT, KernelArg::I32(3), KernelArg::I32(384)]
    );
    assert_eq!(
        op.pack_backward_args(&shape),
        vec![GRAD, input(0), grad_input(0), KernelArg::I32(3), KernelArg::I32(384)]
    );
    assert_eq!(op.grid(&shape), grid(3, 1));
    let node = SwigluOp::new();
    assert_eq!(node.block_n, 1024);
    let z: Shape = vec![None, Some(9)];
    assert_eq!(node.infer_output_shape(&[&z]), vec![None, Some(4)]);
    let z: Shape = vec![Some(2), None];
    assert_eq!(node.infer_output_shape(&[&z]), vec![Some(2), None]);
}

#[test]
fn fused_launches() {
    let eps = 1e-6_f32.to_bits();
    let op = FusedAddRmsnormRtOp { forward: FusedAddRmsnormForward { block_n: 1024 }, eps };
    let shape = [4, 512];
    assert_eq!(op.n_activation_inputs(), 2);
    assert_eq!(op.param_shapes(&shape), vec![vec![512], vec![4, 512], vec![4]]);
    assert_eq!(op.param_names(), vec!["weight"]);
    assert_eq!(
        op.pack_args(&shape),
        vec![
            input(0),
            input(1),
            OUTPUT,
            param(1),
            param(2),
            param(0),
            KernelArg::I32(4),
            KernelArg::I32(512),
            KernelArg::F32(eps),
        ]
    );
    assert_eq!(
        op.pack_backward_args(&shape),
        vec![
            GRAD,
            param(1),
            grad_input(0),
            grad_input(1),
            KernelArg::Ptr(Slot::GradParam(0)),
            param(0),
            param(2),
            KernelArg::I32(4),
            KernelArg::I32(512),
        ]
    );
    assert_eq!(op.grid(&shape), grid(4, 1));
    assert_eq!(FusedAddRmsnormOp::new(eps).block_n, 1024);
}

#[test]
fn head_layout_launches() {
    let t = TransposeHeads::new(16);
    let split = [4, 9, 16];
    assert_eq!(
        t.pack_args(&split),
        vec![input(0), OUTPUT, KernelArg::I32(9), KernelArg::I32(4)]
    );
    assert_eq!(
        t.pack_backward_args(&split),
        vec![GRAD, grad_input(0), KernelArg::I32(9), KernelArg::I32(4)]
    );
    assert_eq!(t.grid(&split), grid(9, 4));
    let m = MergeHeads::new(16);
    let merged = [9, 64];
    assert_eq!(
        m.pack_args(&merged),
        vec![input(0), OUTPUT, KernelArg::I32(9), KernelArg::I32(4)]
    );
    assert_eq!(m.grid(&merged), grid(9, 4));
    assert_eq!(m.backward_grid(&merged), grid(9, 4));
}

#[test]
fn head_layouts_are_each_others_backward() {
    let t = TransposeHeadsOp::new(4, 16);
    let m = MergeHeadsOp::new(4, 16);
    assert_eq!(t.lower().kernel, KernelId::TransposeHeads { head_dim: 16 });
    assert_eq!(t.lower_backward(), KernelId::MergeHeads { head_dim: 16 });
    assert_eq!(m.lower().kernel, KernelId::MergeHeads { head_dim: 16 });
    assert_eq!(m.lower_backward(), KernelId::TransposeHeads { head_dim: 16 });
    let flat: Shape = vec![None, Some(64)];
    let split = t.infer_output_shape(&[&flat]);
    assert_eq!(split, vec![Some(4), None, Some(16)]);
    assert_eq!(m.infer_output_shape(&[&split]), flat);
}

#[test]
fn lookup_launches() {
    let op = TokenEmbedRuntimeOp { vocab_size: 1000, d_model: 64 };
    let shape = [7, 64];
    assert_eq!(op.param_shapes(), vec![vec![1000, 64]]);
    assert_eq!(op.param_names(), vec!["weight"]);
    assert_eq!(
        op.pack_args(&shape),
        vec![input(0), param(0), OUTPUT, KernelArg::I32(7), KernelArg::I32(64)]
    );
    assert_eq!(op.grid(&shape), grid(7, 1));
    assert!(!op.has_backward());
    assert_eq!(TokenEmbedOp::new(1000, 64).lower().kernel, KernelId::TokenEmbed);
}

#[test]
fn sizes_keep_their_low_bits() {
    let op = SwigluForward::new(16);
    let shape = [(1usize << 32) + 3, (1usize << 31) + 1];
    assert_eq!(
        op.pack_args(&shape),
        vec![input(0), OUTPUT, KernelArg::I32(3), KernelArg::I32(i32::MIN + 1)]
    );
    assert_eq!(op.grid(&shape), grid(3, 1));
    assert_eq!(RopeOp::new((1usize << 32) - 1, 0).head_dim, -1);
}

#[test]
fn names_of_custom_ops() {
    let names: Vec<&str> = [
        TransposeHeadsOp::custom_data(2, 4),
        MergeHeadsOp::custom_data(2, 4),
        RopeOp::custom_data(4, 0),
        FlashAttn2Op::custom_data(4, 0),
        CausalFlashAttn2Op::custom_data(4, 0),
        SwigluOp::custom_data(),
        FusedAddRmsnormOp::custom_data(0),
        TokenEmbedOp::custom_data(10, 4),
    ]
    .iter()
    .map(|op: &CustomOp| op.name())
    .collect();
    assert_eq!(
        names,
        vec![
            "transpose_heads",
            "merge_heads",
            "rope",
            "flash_attn2",
            "causal_flash_attn2",
            "swiglu",
            "fused_add_rmsnorm",
            "token_embed",
        ]
    );
}
