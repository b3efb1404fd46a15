//! None of the library's steps begins or ends a recording.

use vstd::prelude::*;

use crate::bench::{dispatch_variant_step, run_variant_step, variant_fn, Variant};
use crate::device::Pipeline;
use crate::dispatch::{Bind, BinderState};
use crate::gemm::cast::{bf16_step, cast_fresh_step, cast_into_step, cast_to_bf16_step, let_go};
use crate::gemm::matmul::{
    coop_step, gemm_batched_step, gemm_epilogue_step, gemm_step, gemm_train_step, simdgroup_step,
    with_bf16, BatchedGemm, Epilogue,
};
use crate::gemm::operand::{GemmBackend, Operand};
use crate::gemm::tiles::{
    partitioned, partitions, split_fn, split_step, tiled_step, zero_pass, zeroed_step, TileGeom,
};
use crate::gemm::transposed::{
    add_step, nt_accum_step, nt_f32_step, nt_train_step, on_temp, temp_step, tn_accum_step,
    tn_f32_step, tn_train_step, transpose_step,
};
use crate::host::{write_step, zero_step};
use crate::nn::attention::{AttnDims, AttnHeadDim, AttnOperands, RowsGroups, RowsLanes};
use crate::nn::cache::{kv_ring_densify_step, kv_store_timestep_pair_step, kv_store_timestep_step};
use crate::nn::flash::{
    decode_passes, decode_step, global_launched, global_tiled_step, routed_step, rows_step,
    swa_launched, swa_tiled_step, DecodeTuning,
};
use crate::nn::gemv::{
    embed_lookup_q4_mlx_step, embed_lookup_q4_step, gate_up_step, gemm_i8_dequant_step,
    gemm_q4_mlx_step, gemv_q4_mlx_blocked_step, gemv_q4_mlx_kv_step, gemv_q4_mlx_qkv_step,
    gemv_q4_mlx_simd_step, gemv_q4_mlx_step, gemv_q4_step, gemv_q8_step, GateUpDispatch,
    Q4MlxLayout, Q4MlxRowVariant, QkvOutputsAt,
};
use crate::nn::norm::{
    mlp_gelu_tanh_bf16_step, mlp_gelu_tanh_step, mlp_silu_step, rms_norm_bf16_step,
    rms_norm_f32_step, rms_norm_residual_add_f32_step, row_reduce_step, scale_f32_inplace_step,
};
use crate::nn::quant::{Q4BankAt, Q4MlxBankAt, QuantShape};
use crate::nn::rope::{
    rope_launched, rope_step, KvStoreTargetAt, QkvBuffersAt, QkvRopeDims, QkvRopeVariant,
};
use crate::nn::sampling::{
    argmax_f32_pass_step, softcap_argmax_one_pass_step, softcap_logits_step, softcap_sample_step,
};
use crate::ops::softcap_step;
use crate::runtime::recording::{
    group_recording, lemma_allocations_record, lemma_binds_note, lemma_encoded_records,
    lemma_passes_note, lemma_retiring_records, noting, recording,
};
use crate::state::RuntimeState;
use crate::tensor::copy::{copy_step, deep_copy_step};
use crate::tensor::{BufferKind, DType, Storage};

verus! {

// ------------------------------------------------ host access and copies ---

/// [`write_step`] neither begins nor ends a recording.
pub broadcast proof fn write_keeps(rt: RuntimeState, buf: Storage, bytes: Seq<u8>)
    ensures
        recording((#[trigger] write_step(rt, buf, bytes)).0) == recording(rt),
{
    broadcast use group_recording;

}

/// [`zero_step`] neither begins nor ends a recording.
pub broadcast proof fn zero_keeps(rt: RuntimeState, buf: Storage)
    ensures
        recording((#[trigger] zero_step(rt, buf)).0) == recording(rt),
{
    broadcast use group_recording;

}

/// [`copy_step`] neither begins nor ends a recording.
pub broadcast proof fn copy_keeps(rt: RuntimeState, src: Operand, dst: Operand)
    ensures
        recording((#[trigger] copy_step(rt, src, dst)).0) == recording(rt),
{
    broadcast use group_recording;

}

/// [`deep_copy_step`] neither begins nor ends a recording.
pub broadcast proof fn deep_copy_keeps(rt: RuntimeState, src: Operand)
    ensures
        recording((#[trigger] deep_copy_step(rt, src)).0) == recording(rt),
{
    broadcast use group_recording;

}

// ----------------------------------------------------------------- casts ---

/// [`cast_into_step`] neither begins nor ends a recording.
pub broadcast proof fn cast_into_keeps(rt: RuntimeState, src: Operand, dst: Operand)
    ensures
        recording((#[trigger] cast_into_step(rt, src, dst)).0) == recording(rt),
{
    broadcast use group_recording;

}

/// [`cast_to_bf16_step`] neither begins nor ends a recording.
pub broadcast proof fn cast_to_bf16_keeps(rt: RuntimeState, src: Operand, kind: BufferKind)
    ensures
        recording((#[trigger] cast_to_bf16_step(rt, src, kind)).0) == recording(rt),
{
    broadcast use group_recording;

}

/// [`cast_fresh_step`] neither begins nor ends a recording.
pub broadcast proof fn cast_fresh_keeps(
    rt: RuntimeState,
    src: Operand,
    dtype: DType,
    problem: Option<Seq<char>>,
    kernel: Seq<char>,
)
    ensures
        recording((#[trigger] cast_fresh_step(rt, src, dtype, problem, kernel)).0) == recording(rt),
{
    broadcast use group_recording;

}

/// [`bf16_step`] neither begins nor ends a recording.
pub broadcast proof fn bf16_keeps(rt: RuntimeState, t: Operand)
    ensures
        recording((#[trigger] bf16_step(rt, t)).0) == recording(rt),
{
    broadcast use group_recording;

}

/// [`let_go`] neither begins nor ends a recording.
pub broadcast proof fn let_go_keeps(rt: RuntimeState, t: Operand, made: bool)
    ensures
        recording(#[trigger] let_go(rt, t, made)) == recording(rt),
{
    broadcast use group_recording;

}

// -------------------------------------------------------------- products ---

/// The partitions of a split product keep whether the scope is recorded.
proof fn lemma_partitions_note(
    start: BinderState,
    a: Operand,
    b: Operand,
    c: Operand,
    m: usize,
    n: usize,
    k: usize,
    tile: TileGeom,
    p: Pipeline,
    i: int,
)
    ensures
        noting(partitioned(start, a, b, c, m, n, k, tile, p, i)) == noting(start),
    decreases i,
{
    broadcast use lemma_binds_note;

    if i > 0 {
        lemma_partitions_note(start, a, b, c, m, n, k, tile, p, i - 1);
    }
}

/// A split product's scope neither begins nor ends a recording.
pub broadcast proof fn split_records(
    s: RuntimeState,
    a: Operand,
    b: Operand,
    c: Operand,
    m: usize,
    n: usize,
    k: usize,
    tile: TileGeom,
    p: Pipeline,
    z: Pipeline,
    zero_first: bool,
)
    ensures
        recording(
            (#[trigger] s.encoded(None, split_fn(a, b, c, m, n, k, tile, p, z, zero_first))).0,
        ) == recording(s),
{
    let f = split_fn(a, b, c, m, n, k, tile, p, z, zero_first);
    assert forall|x: BinderState| noting(#[trigger] f(x)) == noting(x) by {
        let t = zero_pass(z, c).on(x);
        lemma_passes_note(zero_pass(z, c), x);
        let cleared = if zero_first {
            if x.skip_auto {
                t.with_barrier()
            } else {
                t
            }
        } else {
            x
        };
        lemma_partitions_note(cleared.piped(p), a, b, c, m, n, k, tile, p, partitions(k));
    }
    lemma_encoded_records(s, None, f);
}

/// A tile variant's scope neither begins nor ends a recording.
pub broadcast proof fn variant_records(
    s: RuntimeState,
    v: Variant,
    p: Pipeline,
    z: Option<Pipeline>,
    a: Operand,
    b: Operand,
    c: Operand,
    m: usize,
    n: usize,
    k: usize,
)
    ensures
        recording((#[trigger] s.encoded(None, variant_fn(v, p, z, a, b, c, m, n, k))).0)
            == recording(s),
{
    broadcast use lemma_binds_note;

    let f = variant_fn(v, p, z, a, b, c, m, n, k);
    assert forall|x: BinderState| noting(#[trigger] f(x)) == noting(x) by {
        if z is Some {
            lemma_passes_note(zero_pass(z->0, c), x);
        }
    }
    lemma_encoded_records(s, None, f);
}

/// Casting the operands around a step neither begins nor ends a recording where
/// the step does not.
pub broadcast proof fn with_bf16_keeps(
    rt: RuntimeState,
    a: Operand,
    b: Operand,
    go: spec_fn(RuntimeState, Operand, Operand) -> (RuntimeState, Option<Seq<char>>),
)
    requires
        forall|s: RuntimeState, x: Operand, y: Operand|
            recording((#[trigger] go(s, x, y)).0) == recording(s),
    ensures
        recording((#[trigger] with_bf16(rt, a, b, go)).0) == recording(rt),
{
    broadcast use {
        bf16_keeps,
        let_go_keeps,
    };

}

/// Nor does a temporary around two steps where they do not.
pub broadcast proof fn on_temp_keeps(
    rt: RuntimeState,
    shape: Seq<usize>,
    fill: spec_fn(RuntimeState, Operand) -> (RuntimeState, Option<Seq<char>>),
    use_it: spec_fn(RuntimeState, Operand) -> (RuntimeState, Option<Seq<char>>),
)
    requires
        forall|s: RuntimeState, x: Operand|
            recording((#[trigger] fill(s, x)).0) == recording(s),
        forall|s: RuntimeState, x: Operand|
            recording((#[trigger] use_it(s, x)).0) == recording(s),
    ensures
        recording((#[trigger] on_temp(rt, shape, fill, use_it)).0) == recording(rt),
{
    broadcast use {
        temp_keeps,
        lemma_retiring_records,
    };

}

/// [`coop_step`] neither begins nor ends a recording.
pub broadcast proof fn coop_keeps(
    rt: RuntimeState,
    a: Operand,
    b: Operand,
    c: Operand,
    m: usize,
    n: usize,
    k: usize,
)
    ensures
        recording((#[trigger] coop_step(rt, a, b, c, m, n, k)).0) == recording(rt),
{
    broadcast use group_recording;

}

/// [`simdgroup_step`] neither begins nor ends a recording.
pub broadcast proof fn simdgroup_keeps(
    rt: RuntimeState,
    a: Operand,
    b: Operand,
    c: Operand,
    m: usize,
    n: usize,
    k: usize,
)
    ensures
        recording((#[trigger] simdgroup_step(rt, a, b, c, m, n, k)).0) == recording(rt),
{
    broadcast use group_recording;

}

/// [`tiled_step`] neither begins nor ends a recording.
pub broadcast proof fn tiled_keeps(
    rt: RuntimeState,
    kernel: Seq<char>,
    a: Operand,
    b: Operand,
    c: Operand,
    m: usize,
    n: usize,
    k: usize,
    tile: TileGeom,
    extra: Seq<Bind>,
    batch: usize,
)
    ensures
        recording(
            (#[trigger] tiled_step(rt, kernel, a, b, c, m, n, k, tile, extra, batch)).0,
        ) == recording(rt),
{
    broadcast use group_recording;

}

/// [`zeroed_step`] neither begins nor ends a recording.
pub broadcast proof fn zeroed_keeps(
    rt: RuntimeState,
    kernel: Seq<char>,
    a: Operand,
    b: Operand,
    c: Operand,
    m: usize,
    n: usize,
    k: usize,
    tile: TileGeom,
)
    ensures
        recording((#[trigger] zeroed_step(rt, kernel, a, b, c, m, n, k, tile)).0) == recording(rt),
{
    broadcast use group_recording;

}

/// [`split_step`] neither begins nor ends a recording.
pub broadcast proof fn split_keeps(
    rt: RuntimeState,
    kernel: Seq<char>,
    a: Operand,
    b: Operand,
    c: Operand,
    m: usize,
    n: usize,
    k: usize,
    tile: TileGeom,
    zero_first: bool,
)
    ensures
        recording(
            (#[trigger] split_step(rt, kernel, a, b, c, m, n, k, tile, zero_first)).0,
        ) == recording(rt),
{
    broadcast use {
        group_recording,
        split_records,
    };

}

/// [`gemm_step`] neither begins nor ends a recording.
#[verifier::spinoff_prover]
pub broadcast proof fn gemm_keeps(
    rt: RuntimeState,
    a: Operand,
    b: Operand,
    c: Operand,
    backend: GemmBackend,
)
    ensures
        recording((#[trigger] gemm_step(rt, a, b, c, backend)).0) == recording(rt),
{
    broadcast use {
        coop_keeps,
        zeroed_keeps,
        simdgroup_keeps,
    };

}

/// [`gemm_train_step`] neither begins nor ends a recording.
#[verifier::spinoff_prover]
pub broadcast proof fn gemm_train_keeps(
    rt: RuntimeState,
    a: Operand,
    b: Operand,
    c: Operand,
    backend: GemmBackend,
)
    ensures
        recording((#[trigger] gemm_train_step(rt, a, b, c, backend)).0) == recording(rt),
{
    broadcast use {
        gemm_keeps,
        with_bf16_keeps,
    };

}

/// [`gemm_batched_step`] neither begins nor ends a recording.
pub broadcast proof fn gemm_batched_keeps(
    rt: RuntimeState,
    a: Operand,
    b: Operand,
    c: Operand,
    backend: GemmBackend,
    spec: BatchedGemm,
)
    ensures
        recording((#[trigger] gemm_batched_step(rt, a, b, c, backend, spec)).0) == recording(rt),
{
    broadcast use group_recording;

}

/// [`gemm_epilogue_step`] neither begins nor ends a recording.
#[verifier::spinoff_prover]
pub broadcast proof fn gemm_epilogue_keeps(
    rt: RuntimeState,
    a: Operand,
    b: Operand,
    c: Operand,
    backend: GemmBackend,
    epi: Epilogue,
)
    ensures
        recording((#[trigger] gemm_epilogue_step(rt, a, b, c, backend, epi)).0) == recording(rt),
{
    broadcast use {
        gemm_keeps,
        tiled_keeps,
    };

}

/// [`temp_step`] neither begins nor ends a recording.
pub broadcast proof fn temp_keeps(rt: RuntimeState, shape: Seq<usize>)
    ensures
        recording((#[trigger] temp_step(rt, shape)).0) == recording(rt),
{
    broadcast use group_recording;

}

/// [`transpose_step`] neither begins nor ends a recording.
pub broadcast proof fn transpose_keeps(
    rt: RuntimeState,
    t: Operand,
    out: Operand,
    rows: usize,
    cols: usize,
)
    ensures
        recording((#[trigger] transpose_step(rt, t, out, rows, cols)).0) == recording(rt),
{
    broadcast use group_recording;

}

/// [`add_step`] neither begins nor ends a recording.
pub broadcast proof fn add_keeps(rt: RuntimeState, c: Operand, t: Operand)
    ensures
        recording((#[trigger] add_step(rt, c, t)).0) == recording(rt),
{
    broadcast use group_recording;

}

/// [`tn_f32_step`] neither begins nor ends a recording.
#[verifier::spinoff_prover]
#[verifier::rlimit(60)]
pub broadcast proof fn tn_f32_keeps(
    rt: RuntimeState,
    a: Operand,
    b: Operand,
    c: Operand,
    backend: GemmBackend,
)
    ensures
        recording((#[trigger] tn_f32_step(rt, a, b, c, backend)).0) == recording(rt),
{
    broadcast use {
        split_keeps,
        zeroed_keeps,
        transpose_keeps,
        gemm_keeps,
        on_temp_keeps,
    };

}

/// [`tn_train_step`] neither begins nor ends a recording.
#[verifier::spinoff_prover]
#[verifier::rlimit(60)]
pub broadcast proof fn tn_train_keeps(
    rt: RuntimeState,
    a: Operand,
    b: Operand,
    c: Operand,
    backend: GemmBackend,
)
    ensures
        recording((#[trigger] tn_train_step(rt, a, b, c, backend)).0) == recording(rt),
{
    broadcast use {
        split_keeps,
        tiled_keeps,
        tn_f32_keeps,
        with_bf16_keeps,
    };

}

/// [`tn_accum_step`] neither begins nor ends a recording.
#[verifier::spinoff_prover]
#[verifier::rlimit(60)]
pub broadcast proof fn tn_accum_keeps(
    rt: RuntimeState,
    a: Operand,
    b: Operand,
    c: Operand,
    backend: GemmBackend,
)
    ensures
        recording((#[trigger] tn_accum_step(rt, a, b, c, backend)).0) == recording(rt),
{
    broadcast use {
        split_keeps,
        tiled_keeps,
        tn_f32_keeps,
        tn_train_keeps,
        add_keeps,
        with_bf16_keeps,
        on_temp_keeps,
    };

}

/// [`nt_f32_step`] neither begins nor ends a recording.
#[verifier::spinoff_prover]
#[verifier::rlimit(60)]
pub broadcast proof fn nt_f32_keeps(
    rt: RuntimeState,
    a: Operand,
    b: Operand,
    c: Operand,
    backend: GemmBackend,
)
    ensures
        recording((#[trigger] nt_f32_step(rt, a, b, c, backend)).0) == recording(rt),
{
    broadcast use {
        zeroed_keeps,
        transpose_keeps,
        gemm_keeps,
        on_temp_keeps,
    };

}

/// [`nt_train_step`] neither begins nor ends a recording.
#[verifier::spinoff_prover]
#[verifier::rlimit(60)]
pub broadcast proof fn nt_train_keeps(
    rt: RuntimeState,
    a: Operand,
    b: Operand,
    c: Operand,
    backend: GemmBackend,
)
    ensures
        recording((#[trigger] nt_train_step(rt, a, b, c, backend)).0) == recording(rt),
{
    broadcast use {
        tiled_keeps,
        nt_f32_keeps,
        with_bf16_keeps,
    };

}

/// [`nt_accum_step`] neither begins nor ends a recording.
#[verifier::spinoff_prover]
#[verifier::rlimit(60)]
pub broadcast proof fn nt_accum_keeps(
    rt: RuntimeState,
    a: Operand,
    b: Operand,
    c: Operand,
    backend: GemmBackend,
)
    ensures
        recording((#[trigger] nt_accum_step(rt, a, b, c, backend)).0) == recording(rt),
{
    broadcast use {
        tiled_keeps,
        nt_f32_keeps,
        nt_train_keeps,
        add_keeps,
        with_bf16_keeps,
        on_temp_keeps,
    };

}

/// [`softcap_step`] neither begins nor ends a recording.
pub broadcast proof fn softcap_keeps(rt: RuntimeState, pre: Operand, softcap: u32)
    ensures
        recording((#[trigger] softcap_step(rt, pre, softcap)).0) == recording(rt),
{
    broadcast use group_recording;

}

/// [`run_variant_step`] neither begins nor ends a recording.
pub broadcast proof fn run_variant_keeps(
    rt: RuntimeState,
    v: Variant,
    a: Operand,
    b: Operand,
    c: Operand,
    m: usize,
    n: usize,
    k: usize,
)
    ensures
        recording((#[trigger] run_variant_step(rt, v, a, b, c, m, n, k)).0) == recording(rt),
{
    broadcast use {
        group_recording,
        variant_records,
    };

}

/// [`dispatch_variant_step`] neither begins nor ends a recording.
pub broadcast proof fn dispatch_variant_keeps(
    rt: RuntimeState,
    v: Variant,
    a: Operand,
    b: Operand,
    c: Operand,
    m: usize,
    n: usize,
    k: usize,
)
    ensures
        recording((#[trigger] dispatch_variant_step(rt, v, a, b, c, m, n, k)).0) == recording(rt),
{
    broadcast use {
        group_recording,
        variant_records,
    };

}

// -------------------------------------------------- norms and reductions ---

/// [`rms_norm_f32_step`] neither begins nor ends a recording.
pub broadcast proof fn rms_norm_f32_keeps(
    rt: RuntimeState,
    x: Storage,
    weight: Storage,
    out: Storage,
    rows: u32,
    dim: u32,
    scalars: Seq<Bind>,
)
    ensures
        recording(
            (#[trigger] rms_norm_f32_step(rt, x, weight, out, rows, dim, scalars)).0,
        ) == recording(rt),
{
    broadcast use group_recording;

}

/// [`rms_norm_bf16_step`] neither begins nor ends a recording.
pub broadcast proof fn rms_norm_bf16_keeps(
    rt: RuntimeState,
    x: Storage,
    weight: Storage,
    out: Storage,
    rows: u32,
    dim: u32,
    scalars: Seq<Bind>,
)
    ensures
        recording(
            (#[trigger] rms_norm_bf16_step(rt, x, weight, out, rows, dim, scalars)).0,
        ) == recording(rt),
{
    broadcast use group_recording;

}

/// [`rms_norm_residual_add_f32_step`] neither begins nor ends a recording.
pub broadcast proof fn rms_norm_residual_add_f32_keeps(
    rt: RuntimeState,
    x: Storage,
    weight: Storage,
    resid: Storage,
    rows: u32,
    dim: u32,
    scalars: Seq<Bind>,
)
    ensures
        recording(
            (#[trigger] rms_norm_residual_add_f32_step(rt, x, weight, resid, rows, dim, scalars)).0,
        ) == recording(rt),
{
    broadcast use group_recording;

}

/// [`mlp_silu_step`] neither begins nor ends a recording.
pub broadcast proof fn mlp_silu_keeps(
    rt: RuntimeState,
    gate: Storage,
    up: Storage,
    out: Storage,
    n: u32,
    scalars: Seq<Bind>,
)
    ensures
        recording((#[trigger] mlp_silu_step(rt, gate, up, out, n, scalars)).0) == recording(rt),
{
    broadcast use group_recording;

}

/// [`mlp_gelu_tanh_step`] neither begins nor ends a recording.
pub broadcast proof fn mlp_gelu_tanh_keeps(
    rt: RuntimeState,
    gate: Storage,
    up: Storage,
    out: Storage,
    n: u32,
    scalars: Seq<Bind>,
)
    ensures
        recording(
            (#[trigger] mlp_gelu_tanh_step(rt, gate, up, out, n, scalars)).0,
        ) == recording(rt),
{
    broadcast use group_recording;

}

/// [`mlp_gelu_tanh_bf16_step`] neither begins nor ends a recording.
pub broadcast proof fn mlp_gelu_tanh_bf16_keeps(
    rt: RuntimeState,
    gate: Storage,
    up: Storage,
    out: Storage,
    n: u32,
    scalars: Seq<Bind>,
)
    ensures
        recording(
            (#[trigger] mlp_gelu_tanh_bf16_step(rt, gate, up, out, n, scalars)).0,
        ) == recording(rt),
{
    broadcast use group_recording;

}

/// [`scale_f32_inplace_step`] neither begins nor ends a recording.
pub broadcast proof fn scale_f32_inplace_keeps(
    rt: RuntimeState,
    x: Storage,
    n: u32,
    scalars: Seq<Bind>,
)
    ensures
        recording((#[trigger] scale_f32_inplace_step(rt, x, n, scalars)).0) == recording(rt),
{
    broadcast use group_recording;

}

/// [`row_reduce_step`] neither begins nor ends a recording.
pub broadcast proof fn row_reduce_keeps(
    rt: RuntimeState,
    entry: Seq<char>,
    x: Storage,
    out: Storage,
    rows: u32,
    cols: u32,
    out_per_row: u32,
)
    ensures
        recording(
            (#[trigger] row_reduce_step(rt, entry, x, out, rows, cols, out_per_row)).0,
        ) == recording(rt),
{
    broadcast use group_recording;

}

// --------------------------------------------------- caches and sampling ---

/// [`kv_store_timestep_step`] neither begins nor ends a recording.
pub broadcast proof fn kv_store_timestep_keeps(
    rt: RuntimeState,
    src: Storage,
    dst: Storage,
    dst_offset: Storage,
    n: u32,
    dst_capacity: u32,
    scalars: Seq<Bind>,
)
    ensures
        recording(
            (#[trigger] kv_store_timestep_step(
                rt,
                src,
                dst,
                dst_offset,
                n,
                dst_capacity,
                scalars,
            )).0,
        ) == recording(rt),
{
    broadcast use group_recording;

}

/// [`kv_store_timestep_pair_step`] neither begins nor ends a recording.
pub broadcast proof fn kv_store_timestep_pair_keeps(
    rt: RuntimeState,
    src_k: Storage,
    src_v: Storage,
    dst_k: Storage,
    dst_v: Storage,
    dst_offset: Storage,
    n: u32,
    dst_capacity: u32,
    scalars: Seq<Bind>,
)
    ensures
        recording(
            (#[trigger] kv_store_timestep_pair_step(
                rt,
                src_k,
                src_v,
                dst_k,
                dst_v,
                dst_offset,
                n,
                dst_capacity,
                scalars,
            )).0,
        ) == recording(rt),
{
    broadcast use group_recording;

}

/// [`kv_ring_densify_step`] neither begins nor ends a recording.
pub broadcast proof fn kv_ring_densify_keeps(
    rt: RuntimeState,
    src: Storage,
    dst: Storage,
    filled: Storage,
    start: Storage,
    n_slot: u32,
    capacity: u32,
    scalars: Seq<Bind>,
)
    ensures
        recording(
            (#[trigger] kv_ring_densify_step(
                rt,
                src,
                dst,
                filled,
                start,
                n_slot,
                capacity,
                scalars,
            )).0,
        ) == recording(rt),
{
    broadcast use group_recording;

}

/// [`softcap_logits_step`] neither begins nor ends a recording.
pub broadcast proof fn softcap_logits_keeps(
    rt: RuntimeState,
    logits: Storage,
    softcap: Storage,
    n: u32,
    scalars: Seq<Bind>,
)
    ensures
        recording(
            (#[trigger] softcap_logits_step(rt, logits, softcap, n, scalars)).0,
        ) == recording(rt),
{
    broadcast use group_recording;

}

/// [`softcap_argmax_one_pass_step`] neither begins nor ends a recording.
pub broadcast proof fn softcap_argmax_one_pass_keeps(
    rt: RuntimeState,
    logits: Storage,
    out_token: Storage,
    softcap: Storage,
    n: u32,
    scalars: Seq<Bind>,
)
    ensures
        recording(
            (#[trigger] softcap_argmax_one_pass_step(rt, logits, out_token, softcap, n, scalars)).0,
        ) == recording(rt),
{
    broadcast use group_recording;

}

/// [`argmax_f32_pass_step`] neither begins nor ends a recording.
pub broadcast proof fn argmax_f32_pass_keeps(
    rt: RuntimeState,
    logits: Storage,
    out_idx: Storage,
    out_val: Storage,
    idx_in: Option<Storage>,
    softcap: Storage,
    n: u32,
    scalars: Seq<Bind>,
)
    ensures
        recording(
            (#[trigger] argmax_f32_pass_step(
                rt,
                logits,
                out_idx,
                out_val,
                idx_in,
                softcap,
                n,
                scalars,
            )).0,
        ) == recording(rt),
{
    broadcast use group_recording;

}

/// [`softcap_sample_step`] neither begins nor ends a recording.
pub broadcast proof fn softcap_sample_keeps(
    rt: RuntimeState,
    logits: Storage,
    out_token: Storage,
    softcap: Storage,
    n: u32,
    scalars: Seq<Bind>,
)
    ensures
        recording(
            (#[trigger] softcap_sample_step(rt, logits, out_token, softcap, n, scalars)).0,
        ) == recording(rt),
{
    broadcast use group_recording;

}

// ---------------------------------------------------- quantized products ---

/// [`gemv_q8_step`] neither begins nor ends a recording.
pub broadcast proof fn gemv_q8_keeps(
    rt: RuntimeState,
    packed: Storage,
    scales: Storage,
    zeros: Storage,
    x: Storage,
    y: Storage,
    rows: u32,
    cols: u32,
    group_size: u32,
    scalars: Seq<Bind>,
)
    ensures
        recording(
            (#[trigger] gemv_q8_step(
                rt,
                packed,
                scales,
                zeros,
                x,
                y,
                rows,
                cols,
                group_size,
                scalars,
            )).0,
        ) == recording(rt),
{
    broadcast use group_recording;

}

/// [`gemv_q4_step`] neither begins nor ends a recording.
pub broadcast proof fn gemv_q4_keeps(
    rt: RuntimeState,
    bank: Q4BankAt,
    x: Storage,
    y: Storage,
    shape: QuantShape,
    tiled: bool,
    scalars: Seq<Bind>,
)
    ensures
        recording(
            (#[trigger] gemv_q4_step(rt, bank, x, y, shape, tiled, scalars)).0,
        ) == recording(rt),
{
    broadcast use group_recording;

}

/// [`embed_lookup_q4_step`] neither begins nor ends a recording.
pub broadcast proof fn embed_lookup_q4_keeps(
    rt: RuntimeState,
    bank: Q4BankAt,
    token_ids: Storage,
    out: Storage,
    vocab: u32,
    hidden: u32,
    group_size: u32,
    n_tokens: u32,
    scalars: Seq<Bind>,
)
    ensures
        recording(
            (#[trigger] embed_lookup_q4_step(
                rt,
                bank,
                token_ids,
                out,
                vocab,
                hidden,
                group_size,
                n_tokens,
                scalars,
            )).0,
        ) == recording(rt),
{
    broadcast use group_recording;

}

/// [`embed_lookup_q4_mlx_step`] neither begins nor ends a recording.
pub broadcast proof fn embed_lookup_q4_mlx_keeps(
    rt: RuntimeState,
    bank: Q4MlxBankAt,
    token_ids: Storage,
    out: Storage,
    vocab: u32,
    hidden: u32,
    group_size: u32,
    n_tokens: u32,
    scalars: Seq<Bind>,
)
    ensures
        recording(
            (#[trigger] embed_lookup_q4_mlx_step(
                rt,
                bank,
                token_ids,
                out,
                vocab,
                hidden,
                group_size,
                n_tokens,
                scalars,
            )).0,
        ) == recording(rt),
{
    broadcast use group_recording;

}

/// [`gemv_q4_mlx_step`] neither begins nor ends a recording.
pub broadcast proof fn gemv_q4_mlx_keeps(
    rt: RuntimeState,
    bank: Q4MlxBankAt,
    x: Storage,
    y: Storage,
    shape: QuantShape,
    variant: Q4MlxRowVariant,
    scalars: Seq<Bind>,
)
    ensures
        recording(
            (#[trigger] gemv_q4_mlx_step(rt, bank, x, y, shape, variant, scalars)).0,
        ) == recording(rt),
{
    broadcast use group_recording;

}

/// [`gemv_q4_mlx_blocked_step`] neither begins nor ends a recording.
pub broadcast proof fn gemv_q4_mlx_blocked_keeps(
    rt: RuntimeState,
    bank: Q4MlxBankAt,
    x: Storage,
    y: Storage,
    shape: QuantShape,
    scalars: Seq<Bind>,
)
    ensures
        recording(
            (#[trigger] gemv_q4_mlx_blocked_step(rt, bank, x, y, shape, scalars)).0,
        ) == recording(rt),
{
    broadcast use group_recording;

}

/// [`gemv_q4_mlx_simd_step`] neither begins nor ends a recording.
pub broadcast proof fn gemv_q4_mlx_simd_keeps(
    rt: RuntimeState,
    bank: Q4MlxBankAt,
    x_bf16: Storage,
    y: Storage,
    shape: QuantShape,
    layout: Q4MlxLayout,
    resid: Option<Storage>,
    scalars: Seq<Bind>,
)
    ensures
        recording(
            (#[trigger] gemv_q4_mlx_simd_step(
                rt,
                bank,
                x_bf16,
                y,
                shape,
                layout,
                resid,
                scalars,
            )).0,
        ) == recording(rt),
{
    broadcast use group_recording;

}

/// [`gate_up_step`] neither begins nor ends a recording.
pub broadcast proof fn gate_up_keeps(
    rt: RuntimeState,
    gate: Q4MlxBankAt,
    up: Q4MlxBankAt,
    x: Storage,
    mid: Storage,
    shape: QuantShape,
    dispatch: GateUpDispatch,
    mid_as_bf16: bool,
    scalars: Seq<Bind>,
)
    ensures
        recording(
            (#[trigger] gate_up_step(
                rt,
                gate,
                up,
                x,
                mid,
                shape,
                dispatch,
                mid_as_bf16,
                scalars,
            )).0,
        ) == recording(rt),
{
    broadcast use group_recording;

}

/// [`gemv_q4_mlx_kv_step`] neither begins nor ends a recording.
pub broadcast proof fn gemv_q4_mlx_kv_keeps(
    rt: RuntimeState,
    k: Q4MlxBankAt,
    v: Q4MlxBankAt,
    x_bf16: Storage,
    k_out: Storage,
    v_out: Storage,
    shape: QuantShape,
    layout: Q4MlxLayout,
    scalars: Seq<Bind>,
)
    ensures
        recording(
            (#[trigger] gemv_q4_mlx_kv_step(
                rt,
                k,
                v,
                x_bf16,
                k_out,
                v_out,
                shape,
                layout,
                scalars,
            )).0,
        ) == recording(rt),
{
    broadcast use group_recording;

}

/// [`gemv_q4_mlx_qkv_step`] neither begins nor ends a recording.
pub broadcast proof fn gemv_q4_mlx_qkv_keeps(
    rt: RuntimeState,
    q: Q4MlxBankAt,
    k: Q4MlxBankAt,
    v: Q4MlxBankAt,
    x_bf16: Storage,
    out: QkvOutputsAt,
    rows_q: u32,
    rows_kv: u32,
    cols: u32,
    group_size: u32,
    layout: Q4MlxLayout,
    scalars: Seq<Bind>,
)
    ensures
        recording(
            (#[trigger] gemv_q4_mlx_qkv_step(
                rt,
                q,
                k,
                v,
                x_bf16,
                out,
                rows_q,
                rows_kv,
                cols,
                group_size,
                layout,
                scalars,
            )).0,
        ) == recording(rt),
{
    broadcast use group_recording;

}

/// [`gemm_q4_mlx_step`] neither begins nor ends a recording.
pub broadcast proof fn gemm_q4_mlx_keeps(
    rt: RuntimeState,
    bank: Q4MlxBankAt,
    x_bf16: Storage,
    y: Storage,
    shape: QuantShape,
    m: u32,
    layout: Q4MlxLayout,
    resid: Option<Storage>,
    scalars: Seq<Bind>,
)
    ensures
        recording(
            (#[trigger] gemm_q4_mlx_step(rt, bank, x_bf16, y, shape, m, layout, resid, scalars)).0,
        ) == recording(rt),
{
    broadcast use group_recording;

}

/// [`gemm_i8_dequant_step`] neither begins nor ends a recording.
pub broadcast proof fn gemm_i8_dequant_keeps(
    rt: RuntimeState,
    a: Storage,
    b: Storage,
    c: Storage,
    m: u32,
    n: u32,
    k: u32,
    a_scale: u32,
    b_scale: Option<Storage>,
)
    ensures
        recording(
            (#[trigger] gemm_i8_dequant_step(rt, a, b, c, m, n, k, a_scale, b_scale)).0,
        ) == recording(rt),
{
    broadcast use group_recording;

}

// ---------------------------------------------------- attention and rope ---

/// [`decode_passes`] neither begins nor ends a recording.
#[verifier::spinoff_prover]
#[verifier::rlimit(60)]
pub broadcast proof fn decode_passes_keeps(
    rt: RuntimeState,
    x: AttnOperands,
    scratch: Storage,
    dims: AttnDims,
    d: u32,
    kv_capacity: u32,
    tuning: DecodeTuning,
    out_bf16: bool,
)
    ensures
        recording(
            (#[trigger] decode_passes(rt, x, scratch, dims, d, kv_capacity, tuning, out_bf16)).0,
        ) == recording(rt),
{
    broadcast use group_recording;

}

/// [`decode_step`] neither begins nor ends a recording.
#[verifier::spinoff_prover]
#[verifier::rlimit(60)]
pub broadcast proof fn decode_keeps(
    rt: RuntimeState,
    x: AttnOperands,
    dims: AttnDims,
    d: u32,
    kv_capacity: usize,
    tuning: DecodeTuning,
    out_bf16: bool,
)
    ensures
        recording(
            (#[trigger] decode_step(rt, x, dims, d, kv_capacity, tuning, out_bf16)).0,
        ) == recording(rt),
{
    broadcast use {
        decode_passes_keeps,
        lemma_allocations_record,
        lemma_retiring_records,
    };

}

/// [`rows_step`] neither begins nor ends a recording.
pub broadcast proof fn rows_keeps(
    rt: RuntimeState,
    x: AttnOperands,
    dims: AttnDims,
    d: u32,
    lanes: RowsLanes,
    groups: RowsGroups,
    out_bf16: bool,
)
    ensures
        recording(
            (#[trigger] rows_step(rt, x, dims, d, lanes, groups, out_bf16)).0,
        ) == recording(rt),
{
    broadcast use group_recording;

}

/// [`routed_step`] neither begins nor ends a recording.
#[verifier::spinoff_prover]
#[verifier::rlimit(60)]
pub broadcast proof fn routed_keeps(
    rt: RuntimeState,
    x: AttnOperands,
    dims: AttnDims,
    d: u32,
    out_bf16: bool,
)
    ensures
        recording((#[trigger] routed_step(rt, x, dims, d, out_bf16)).0) == recording(rt),
{
    broadcast use {
        decode_keeps,
        rows_keeps,
    };

}

/// [`swa_launched`] neither begins nor ends a recording.
pub broadcast proof fn swa_launched_keeps(
    rt: RuntimeState,
    head_dim: AttnHeadDim,
    x: AttnOperands,
    dims: AttnDims,
    scalars: Seq<Bind>,
)
    ensures
        recording((#[trigger] swa_launched(rt, head_dim, x, dims, scalars)).0) == recording(rt),
{
    broadcast use group_recording;

}

/// [`swa_tiled_step`] neither begins nor ends a recording.
pub broadcast proof fn swa_tiled_keeps(
    rt: RuntimeState,
    head_dim: AttnHeadDim,
    x: AttnOperands,
    dims: AttnDims,
)
    ensures
        recording((#[trigger] swa_tiled_step(rt, head_dim, x, dims)).0) == recording(rt),
{
    broadcast use group_recording;

}

/// [`global_launched`] neither begins nor ends a recording.
pub broadcast proof fn global_launched_keeps(
    rt: RuntimeState,
    x: AttnOperands,
    dims: AttnDims,
    scalars: Seq<Bind>,
)
    ensures
        recording((#[trigger] global_launched(rt, x, dims, scalars)).0) == recording(rt),
{
    broadcast use group_recording;

}

/// [`global_tiled_step`] neither begins nor ends a recording.
pub broadcast proof fn global_tiled_keeps(
    rt: RuntimeState,
    x: AttnOperands,
    dims: AttnDims,
    out_bf16: bool,
)
    ensures
        recording((#[trigger] global_tiled_step(rt, x, dims, out_bf16)).0) == recording(rt),
{
    broadcast use group_recording;

}

/// [`rope_launched`] neither begins nor ends a recording.
pub broadcast proof fn rope_launched_keeps(
    rt: RuntimeState,
    variant: QkvRopeVariant,
    qkv: QkvBuffersAt,
    dims: QkvRopeDims,
    pos: Option<Storage>,
    store: Option<KvStoreTargetAt>,
    q_only: bool,
    scalars: Seq<Bind>,
)
    ensures
        recording(
            (#[trigger] rope_launched(rt, variant, qkv, dims, pos, store, q_only, scalars)).0,
        ) == recording(rt),
{
    broadcast use group_recording;

}

/// [`rope_step`] neither begins nor ends a recording.
pub broadcast proof fn rope_keeps(
    rt: RuntimeState,
    variant: QkvRopeVariant,
    qkv: QkvBuffersAt,
    dims: QkvRopeDims,
    pos_offset: u32,
    pos: Option<Storage>,
    store: Option<KvStoreTargetAt>,
    q_only: bool,
)
    ensures
        recording(
            (#[trigger] rope_step(rt, variant, qkv, dims, pos_offset, pos, store, q_only)).0,
        ) == recording(rt),
{
    broadcast use group_recording;

}

} // verus!
