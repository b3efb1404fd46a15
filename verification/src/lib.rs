//! Encode runtime, GEMM and neural-network kernel dispatch for Metal 4.
//!
//! The library decides everything that happens around a device: which buffer a
//! request gets, what is bound where, which kernel runs with which geometry,
//! when a batch is committed, and what is refused before any of it. It touches
//! no device itself. Every call leaves an ordered log of [`device::DeviceOp`]s
//! in the runtime, and whoever owns the device carries them out.
//!
//! | Module | What it holds |
//! |---|---|
//! | [`runtime`], [`state`] | the runtime, and its behaviour as data |
//! | [`device`] | device limits, kernels, and the operation log |
//! | [`tensor`], [`host`] | buffers, tensors, views, and host access |
//! | [`dispatch`] | the binder and launch geometry |
//! | [`gemm`] | matrix multiplication: validation, routing, epilogue |
//! | [`nn`] | shape-checked neural-network kernels |
//! | [`ops`] | elementwise helpers |
//! | [`capture`], [`decode_icb`] | recording, and replay of a recording |
//! | [`recording`] | that only beginning and taking one change whether it runs |
//! | [`cb_replay`] | ping-pong ledger of encode-once replay |
//! | [`mtl_tensor`] | native quantized tensors |
//! | [`npy`] | `.npy` files |
//! | [`bench`] | workloads, tile variants and checks of the benchmarks |
//! | [`ab_flags`], [`icb_flags`], [`infer_trace`] | switches and counters |
//! | [`pool`], [`sizes`], [`bytes`], [`text`] | slabs, extents, bytes, messages |

pub mod ab_flags;
pub mod bench;
pub mod bytes;
pub mod capture;
pub mod cb_replay;
pub mod decode_icb;
pub mod device;
pub mod dispatch;
pub mod gemm;
pub mod host;
pub mod icb_flags;
pub mod infer_trace;
pub mod mtl_tensor;
pub mod nn;
pub mod npy;
pub mod ops;
pub mod pool;
pub mod recording;
pub mod runtime;
pub mod seen;
pub mod sizes;
pub mod state;
pub mod tensor;
pub mod text;

pub use crate::cb_replay::{
    cb_replay_api_gap_summary, survey_cb_replay_api_gaps, ArgTableSlot, ArgTableSlotPlan,
    CbReplayApiGap, CbReplayError, CbReplayPhase, CbSlot, IcbCommandTypeHint, IcbReplayStub,
    IcbStubPhase, PingPongCbReplay,
};
pub use crate::decode_icb::{
    begin_decode_icb_capture, binder_encode_nop, decode_icb_capture_active, decode_icb_enabled,
    icb_coarse_ranges_enabled, icb_freeze_binds_enabled, icb_pipelines_enabled,
    icb_range_batch_enabled, pipeline_icb, set_binder_encode_nop, set_decode_icb,
    set_icb_coarse_ranges, set_icb_freeze_binds, set_icb_pipelines, set_icb_range_batch,
    take_decode_icb_capture, BinderEncodeNopGuard, DecodeIcb, DecodeIcbBind, DecodeIcbCapture,
    DecodeIcbCommand, TapeHold,
};
pub use crate::gemm::{
    cast_f16_to_f32, cast_f32_to_f16, gemm_batched, gemm_epilogue, gemm_f32, Activation,
    BatchStrides, BatchedGemm, Epilogue, GemmBackend,
};
pub use crate::mtl_tensor::{
    nax_verify_readiness, NaxVerifyReadiness, QuantDType, QUANT_PREFILL_GEMM_WIRED,
};
pub use crate::ops::softcap_f32;
pub use crate::runtime::GpuRuntime;
pub use crate::state::{DeviceMemoryInfo, PrecisionMode};
pub use crate::tensor::{BufferKind, DType, GpuBuffer, Storage, Tensor};
