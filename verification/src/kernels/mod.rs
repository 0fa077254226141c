//! The custom kernels of the transformer graphs.
//!
//! Every kernel comes with its graph node (shape inference, lowering), its
//! runtime op (arguments, parameter buffers, launch grid) and a trace of what one
//! block of a launch loads and stores.

pub mod bounds;
pub mod exact;
pub mod flash_attn2;
pub mod formulas;
pub mod fused_add_rmsnorm;
pub mod index;
pub mod launch;
pub mod reals;
pub mod rope;
pub mod softmax;
pub mod swiglu;
pub mod tile;
pub mod token_embed;
pub mod transpose_heads;

pub use flash_attn2::{CausalFlashAttn2Op, FlashAttn2Op};
pub use fused_add_rmsnorm::FusedAddRmsnormOp;
pub use rope::RopeOp;
pub use swiglu::SwigluOp;
pub use transpose_heads::{MergeHeadsOp, TransposeHeadsOp};
