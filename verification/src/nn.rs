//! Neural-network kernels behind a typed, shape-checked surface.
//!
//! The kernels guard their thread index and nothing else, so a short buffer is
//! an out-of-bounds device read that no one reports. Every function here
//! refuses such a call on the host, before anything is encoded, and so leaves
//! the runtime as it was.
//!
//! Each kernel has two entry points. The plain one binds its scalar operands
//! through the constant arena. The `_with_scalars` one takes the binds of those
//! operands, for callers that keep them at stable addresses; those binds follow
//! the data binds in the order each function states.

pub mod attention;
pub mod attention_laws;
pub mod cache;
pub mod cache_laws;
pub mod check;
pub mod flash;
pub mod gemv;
pub mod gemv_laws;
pub mod laws;
pub mod norm;
pub mod quant;
pub mod rope;
pub mod rope_laws;
pub mod sampling;

pub use self::attention::{
    attn_kernel_for, attn_kv_capacity, decode_chunk_for, decode_head_block_for,
    decode_lanes_for, rows_groups_for, rows_lanes_for, validate_attn_output_scalar_aliases,
    validate_attn_storage, AttnDims, AttnHeadDim, AttnKernel, DecodeChunk, DecodeHeadBlock,
    RowsGroups, RowsLanes, DECODE_CHUNK_D128, DECODE_CHUNK_D256, DECODE_CHUNK_D512,
    DECODE_HEAD_BLOCK_D128, DECODE_HEAD_BLOCK_D256, DECODE_HEAD_BLOCK_D512, DECODE_KV_CHUNK,
    DECODE_LANES_D128, DECODE_LANES_D256, DECODE_LANES_D512, DECODE_REDUCE_THREADS,
    ROWS_GROUPS_D128, ROWS_GROUPS_D256, ROWS_GROUPS_D512, ROWS_LANES_D128, ROWS_LANES_D256,
    ROWS_LANES_D512,
};
pub use self::cache::{
    kv_ring_densify, kv_ring_densify_with_scalars, kv_store_timestep, kv_store_timestep_pair,
    kv_store_timestep_pair_with_scalars, kv_store_timestep_with_scalars,
};
pub use self::flash::{
    flash_attn_decode, flash_attn_decode_with_chunk, flash_attn_global_h512,
    flash_attn_global_h512_tiled, flash_attn_global_h512_with_scalars, flash_attn_rows,
    flash_attn_rows_with_lanes, flash_attn_swa, flash_attn_swa_tiled,
    flash_attn_swa_with_scalars,
};
pub use self::gemv::{
    embed_lookup_q4, embed_lookup_q4_mlx, embed_lookup_q4_mlx_with_scalars,
    embed_lookup_q4_with_scalars, gemm_i8_dequant, gemm_q4_mlx, gemm_q4_mlx_with_scalars,
    gemv_q4, gemv_q4_mlx, gemv_q4_mlx_blocked, gemv_q4_mlx_blocked_with_scalars,
    gemv_q4_mlx_gate_up_gelu, gemv_q4_mlx_gate_up_gelu_with_scalars, gemv_q4_mlx_kv,
    gemv_q4_mlx_kv_with_scalars, gemv_q4_mlx_qkv, gemv_q4_mlx_qkv_with_scalars,
    gemv_q4_mlx_simd, gemv_q4_mlx_simd_with_scalars, gemv_q4_mlx_with_scalars,
    gemv_q4_with_scalars, gemv_q8, gemv_q8_with_scalars, GateUpDispatch, Q4MlxLayout,
    Q4MlxRowVariant, QkvOutputs, GEMM_Q4_MLX_MAX_M,
};
pub use self::norm::{
    mlp_gelu_tanh, mlp_gelu_tanh_bf16, mlp_gelu_tanh_bf16_with_scalars,
    mlp_gelu_tanh_with_scalars, mlp_silu, mlp_silu_with_scalars, rms_norm_bf16,
    rms_norm_bf16_with_scalars, rms_norm_f32, rms_norm_f32_with_scalars,
    rms_norm_residual_add_f32, rms_norm_residual_add_f32_with_scalars, row_max_f32, row_sum_f32,
    scale_f32_inplace, scale_f32_inplace_with_scalars, softmax_rows_f32,
};
pub use self::quant::{
    simd_gemv_threadgroups, Q4Bank, Q4MlxBank, QuantShape,
};
pub use self::rope::{
    rms_qkv_rope, rms_qkv_rope_with_scalars, validate_rms_qkv_rope, KvStoreTarget, QkvBuffers,
    QkvRopeDims, QkvRopeVariant,
};
pub use self::sampling::{
    argmax_f32_pass, argmax_f32_pass_with_scalars, argmax_pass_groups, softcap_argmax_one_pass,
    softcap_argmax_one_pass_with_scalars, softcap_logits, softcap_logits_with_scalars,
    softcap_sample, softcap_sample_with_scalars,
};
