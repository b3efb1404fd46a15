//! Matrix multiplication: cooperative TensorOps kernels where the library has
//! them, a portable simdgroup path elsewhere.
//!
//! Every entry point validates before it casts, allocates or encodes. The
//! kernels index with signed 32-bit arithmetic, so larger matrices are refused.
//!
//! Under [`crate::state::PrecisionMode::Bf16`] the training entry points run
//! bf16 kernels with f32 accumulation; operands that are bf16 already are used
//! as they are.

pub mod cast;
pub mod cast_laws;
pub mod laws;
pub mod matmul;
pub mod operand;
pub mod tiles;
pub mod transposed;
pub mod transposed_laws;

pub use self::cast::{
    cast_bf16_to_f32, cast_f16_to_f32, cast_f32_to_bf16, cast_f32_to_bf16_hot,
    cast_f32_to_bf16_into, cast_f32_to_f16,
};
pub use self::matmul::{
    gemm, gemm_auto, gemm_batched, gemm_epilogue, gemm_f32, gemm_train, Activation, BatchStrides,
    BatchedGemm, Epilogue,
};
pub use self::operand::{select_backend, GemmBackend};
pub use self::transposed::{
    gemm_nt_accum_train, gemm_nt_f32, gemm_nt_train, gemm_tn_accum_train, gemm_tn_f32,
    gemm_tn_train,
};
