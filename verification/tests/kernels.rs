//! What the kernel families encode: names, slots, grids, and what they refuse.

use tessl::ab_flags::{AbFlags, Env};
use tessl::device::{DeviceInfo, DeviceOp, Kernel};
use tessl::gemm::{
    gemm_batched, gemm_epilogue, Activation, BatchStrides, BatchedGemm, Epilogue, GemmBackend,
};
use tessl::icb_flags::IcbFlags;
use tessl::infer_trace::InferTrace;
use tessl::nn::attention::{decode_entries, rows_entry};
use tessl::nn::check::{is_finite, reduce_tptg, reduction_tptg};
use tessl::nn::{
    argmax_f32_pass, argmax_pass_groups, attn_kernel_for, attn_kv_capacity, decode_chunk_for,
    decode_head_block_for, decode_lanes_for, embed_lookup_q4_mlx, flash_attn_decode,
    flash_attn_rows, gemm_i8_dequant, gemm_q4_mlx, gemv_q4, gemv_q4_mlx_simd, gemv_q8,
    kv_ring_densify, kv_store_timestep, kv_store_timestep_pair, mlp_silu, rms_norm_f32,
    rms_norm_residual_add_f32, rms_qkv_rope, row_sum_f32, rows_groups_for, rows_lanes_for,
    scale_f32_inplace, simd_gemv_threadgroups, softcap_argmax_one_pass, softmax_rows_f32,
    validate_rms_qkv_rope, AttnDims, AttnKernel, DecodeChunk, DecodeHeadBlock, KvStoreTarget,
    Q4Bank, Q4MlxBank, Q4MlxLayout, QkvBuffers, QkvRopeDims, QkvRopeVariant, QuantShape,
    RowsGroups, RowsLanes, GEMM_Q4_MLX_MAX_M,
};
use tessl::runtime::GpuRuntime;
use tessl::tensor::GpuBuffer;

const KERNELS: &[&str] = &[
    "rms_norm_f32",
    "rms_norm_residual_add_f32",
    "mlp_silu",
    "scale_f32_inplace",
    "softmax_rows_f32",
    "row_sum_f32",
    "kv_store_timestep",
    "kv_store_timestep_pair",
    "kv_ring_densify",
    "softcap_argmax_one_pass",
    "argmax_f32",
    "gemv_q8",
    "gemv_q4",
    "gemv_q4_tiled",
    "gemv_q4_mlx_simd",
    "gemv_q4_mlx_simd_add_i4",
    "gemm_q4_mlx_simd",
    "gemm_q4_mlx",
    "embed_lookup_q4_mlx",
    "gemm_i8_dequant",
    "matmul2d_tensorops_i8_f32",
    "matmul2d_tensorops_f32",
    "matmul2d_tensorops_bf16_f32_batched",
    "matmul2d_tensorops_bf16_f32_epi",
    "rms_qkv_rope",
    "rms_qkv_rope_posbuf",
    "rms_qkv_rope_kv_store",
    "flash_attn_decode_partial_h128_c256_r8",
    "flash_attn_decode_reduce_h128_c256",
    "flash_attn_rows_h256_r16_g32",
];

const ARENA: u64 = 0x1_0000_0000;

fn f(x: f32) -> u32 {
    x.to_bits()
}

/// One encoded dispatch: what its slots held, words by their value.
#[derive(Debug, PartialEq)]
struct Launch {
    kernel: String,
    slots: Vec<(usize, Slot)>,
    groups: (usize, usize),
    threads: usize,
}

#[derive(Clone, Copy, Debug, PartialEq)]
enum Slot {
    Buf(u64),
    Word(u32),
}

struct Bench {
    rt: GpuRuntime,
}

impl Bench {
    fn new() -> Bench {
        Bench::with_id(1)
    }

    fn with_id(id: u64) -> Bench {
        let kernels = KERNELS
            .iter()
            .map(|name| Kernel {
                name: name.to_string(),
                library: 0,
                thread_execution_width: 32,
                max_threads: 1024,
                icb_capable: false,
            })
            .collect();
        Bench {
            rt: GpuRuntime::new(
                id,
                DeviceInfo {
                    max_buffer_length: 1 << 32,
                    max_threadgroup_memory: 32768,
                    arena_address: ARENA,
                    recommended_working_set: 1 << 34,
                    memory_size: 1 << 35,
                    counter_heap: false,
                },
                kernels,
                1 << 33,
                AbFlags::new(Env { vars: Vec::new() }),
                IcbFlags::new(),
                InferTrace::new(),
            ),
        }
    }

    /// A buffer of `n` words.
    fn words(&mut self, n: usize) -> GpuBuffer {
        self.rt.alloc_buffer(n * 4).unwrap()
    }

    fn bytes(&mut self, n: usize) -> GpuBuffer {
        self.rt.alloc_buffer(n).unwrap()
    }

    /// Everything dispatched since the last call.
    fn launches(&mut self) -> Vec<Launch> {
        let (ops, blob) = self.rt.take_ops();
        let mut arena = std::collections::HashMap::new();
        let mut slots: Vec<(usize, Slot)> = Vec::new();
        let mut kernel = String::new();
        let mut out = Vec::new();
        for op in ops {
            match op {
                DeviceOp::WriteConst { offset, from, len } => {
                    assert_eq!(len, 4);
                    let b = &blob[from..from + 4];
                    arena.insert(
                        ARENA + offset as u64,
                        u32::from_le_bytes([b[0], b[1], b[2], b[3]]),
                    );
                }
                DeviceOp::SetPipeline { pipeline } => {
                    kernel = KERNELS[pipeline.kernel].to_string();
                    slots.clear();
                }
                DeviceOp::SetAddress { index, address } => {
                    let slot = match arena.get(&address) {
                        Some(w) => Slot::Word(*w),
                        None => Slot::Buf(address),
                    };
                    slots.push((index, slot));
                }
                DeviceOp::Dispatch { groups, threads } => {
                    slots.sort_by_key(|s| s.0);
                    assert_eq!((groups.depth, threads.height, threads.depth), (1, 1, 1));
                    out.push(Launch {
                        kernel: kernel.clone(),
                        slots: slots.clone(),
                        groups: (groups.width, groups.height),
                        threads: threads.width,
                    });
                }
                _ => {}
            }
        }
        out
    }

    /// The only dispatch since the last call.
    fn launch(&mut self) -> Launch {
        let mut all = self.launches();
        assert_eq!(all.len(), 1);
        all.remove(0)
    }

    /// Nothing was dispatched.
    fn quiet(&mut self) {
        assert_eq!(self.launches(), []);
    }
}

fn at(b: &GpuBuffer) -> Slot {
    Slot::Buf(b.at().slab.address)
}

/// Slots 0, 1, 2 and so on.
fn row(slots: &[Slot]) -> Vec<(usize, Slot)> {
    slots.iter().copied().enumerate().collect()
}

// ----------------------------------------------------------------- norms ---

#[test]
fn rms_norm_takes_one_group_per_row() {
    let mut b = Bench::new();
    let (x, w, out) = (b.words(3 * 100), b.words(100), b.words(3 * 100));
    rms_norm_f32(&mut b.rt, &x, &w, &out, 3, 100, f(1e-6)).unwrap();
    let l = b.launch();
    assert_eq!(l.kernel, "rms_norm_f32");
    assert_eq!(
        l.slots,
        row(&[at(&x), at(&w), at(&out), Slot::Word(3), Slot::Word(100), Slot::Word(f(1e-6))])
    );
    assert_eq!(l.groups, (3, 1));
    assert!(l.threads.is_power_of_two() && l.threads <= 1024);

    let err = rms_norm_f32(&mut b.rt, &x, &w, &out, 4, 100, f(1e-6)).unwrap_err();
    assert!(err.contains("buffer holds 300 elements"), "{err}");
    assert!(err.contains("400"), "{err}");
    b.quiet();
    rms_norm_f32(&mut b.rt, &x, &w, &out, 0, 100, f(1e-6)).unwrap();
    b.quiet();
}

#[test]
fn residual_norms_scale_and_write_in_place() {
    let mut b = Bench::new();
    let (x, w, resid) = (b.words(64), b.words(64), b.words(64));
    rms_norm_residual_add_f32(&mut b.rt, &x, &w, &resid, 1, 64, f(1e-5), f(0.5)).unwrap();
    let l = b.launch();
    assert_eq!(l.kernel, "rms_norm_residual_add_f32");
    assert_eq!(l.slots[5..], [(5, Slot::Word(f(1e-5))), (6, Slot::Word(f(0.5)))]);
}

#[test]
fn elementwise_kernels_cover_their_elements() {
    let mut b = Bench::new();
    let (gate, up, out) = (b.words(100), b.words(100), b.words(100));
    mlp_silu(&mut b.rt, &gate, &up, &out, 100).unwrap();
    let l = b.launch();
    assert_eq!(l.slots, row(&[at(&gate), at(&up), at(&out), Slot::Word(100)]));
    assert_eq!((l.groups, l.threads), ((4, 1), 32));
    scale_f32_inplace(&mut b.rt, &out, f(2.0), 10).unwrap();
    let l = b.launch();
    assert_eq!(l.slots, row(&[at(&out), Slot::Word(f(2.0)), Slot::Word(10)]));
    assert_eq!((l.groups, l.threads), ((1, 1), 10));
}

#[test]
fn reductions_pick_a_power_of_two() {
    assert_eq!(reduce_tptg(1024, 1), 1);
    assert_eq!(reduce_tptg(1024, 100), 128);
    assert_eq!(reduce_tptg(1024, 5000), 1024);
    assert_eq!(reduce_tptg(896, 5000), 512);
    assert_eq!(reduction_tptg(1024, 300, 256), 256);
    assert_eq!(reduction_tptg(0, 0, 0), 1);
    let mut b = Bench::new();
    let (x, out, sums) = (b.words(2 * 100), b.words(2 * 100), b.words(2));
    softmax_rows_f32(&mut b.rt, &x, &out, 2, 100).unwrap();
    let l = b.launch();
    assert_eq!(l.slots, row(&[at(&x), at(&out), Slot::Word(100)]));
    assert_eq!((l.groups, l.threads), ((2, 1), 128));
    row_sum_f32(&mut b.rt, &x, &sums, 2, 100).unwrap();
    assert_eq!(b.launch().kernel, "row_sum_f32");
}

// ----------------------------------------------------------------- caches --

#[test]
fn cache_stores_bind_live_offsets() {
    let mut b = Bench::new();
    let (src, dst, off) = (b.words(64), b.words(1024), b.words(1));
    kv_store_timestep(&mut b.rt, &src, &dst, &off, 64, 1024).unwrap();
    let l = b.launch();
    assert_eq!(
        l.slots,
        row(&[at(&src), at(&dst), Slot::Word(64), at(&off), Slot::Word(1024)])
    );
    assert_eq!((l.groups, l.threads), ((2, 1), 32));
    assert_eq!(
        kv_store_timestep(&mut b.rt, &src, &dst, &off, 64, 63).unwrap_err(),
        "kv_store_timestep: dst_capacity 63 is smaller than n 64"
    );
    let clash = kv_store_timestep(&mut b.rt, &dst, &dst, &off, 64, 1024).unwrap_err();
    assert_eq!(
        clash,
        "kv_store_timestep: writable buffer dst overlaps read-only buffer src"
    );
    let (v, dv) = (b.words(64), b.words(1024));
    kv_store_timestep_pair(&mut b.rt, &src, &v, &dst, &dv, &off, 64, 1024).unwrap();
    assert_eq!(
        b.launch().slots,
        row(&[at(&src), at(&v), at(&dst), at(&dv), Slot::Word(64), at(&off), Slot::Word(1024)])
    );
    assert_eq!(
        kv_store_timestep_pair(&mut b.rt, &src, &v, &dst, &dst, &off, 64, 1024).unwrap_err(),
        "kv_store_timestep_pair: writable buffers dst_k and dst_v overlap"
    );
    b.quiet();
}

#[test]
fn rings_are_densified_with_live_bounds() {
    let mut b = Bench::new();
    let (src, dst, filled, start) = (b.words(256), b.words(256), b.words(1), b.words(1));
    kv_ring_densify(&mut b.rt, &src, &dst, &filled, &start, 64, 4).unwrap();
    assert_eq!(
        b.launch().slots,
        row(&[at(&src), at(&dst), Slot::Word(64), Slot::Word(4), at(&filled), at(&start)])
    );
}

// --------------------------------------------------------------- sampling --

#[test]
fn argmax_passes_shrink_to_one_group() {
    for (n, groups) in [(1u32, 1usize), (256, 1), (257, 2), (262_144, 1024)] {
        assert_eq!(argmax_pass_groups(n), groups);
    }
    let mut b = Bench::new();
    let (logits, idx, val, cap) = (b.words(600), b.words(3), b.words(3), b.words(1));
    argmax_f32_pass(&mut b.rt, &logits, &idx, &val, None, &cap, 600).unwrap();
    let l = b.launch();
    assert_eq!(l.kernel, "argmax_f32");
    assert_eq!((l.groups, l.threads), ((3, 1), 256));
    assert_eq!(l.slots[5], (5, Slot::Word(0)), "the first pass has no indices");
    let (idx2, val2) = (b.words(1), b.words(1));
    argmax_f32_pass(&mut b.rt, &val, &idx2, &val2, Some(&idx), &cap, 3).unwrap();
    let l = b.launch();
    assert_eq!(l.groups, (1, 1));
    assert_eq!(l.slots[4..6], [(4, at(&idx)), (5, Slot::Word(1))]);
    assert_eq!(
        argmax_f32_pass(&mut b.rt, &logits, &idx, &val, None, &cap, 0).unwrap_err(),
        "argmax_f32_pass: n must be non-zero"
    );
    softcap_argmax_one_pass(&mut b.rt, &logits, &idx2, &cap, 600).unwrap();
    let l = b.launch();
    assert_eq!((l.groups, l.threads), ((1, 1), 1024));
}

// ------------------------------------------------------------------ quant --

#[test]
fn quantized_shapes_are_checked() {
    let shape = QuantShape { rows: 8, cols: 128, group_size: 32 };
    assert_eq!(shape.groups().unwrap(), 32);
    let zero = QuantShape { rows: 8, cols: 128, group_size: 0 };
    assert_eq!(
        zero.groups().unwrap_err(),
        "QuantShape: group_size must be non-zero"
    );
    let ragged = QuantShape { rows: 8, cols: 100, group_size: 32 };
    assert!(ragged.groups().unwrap_err().contains("not a multiple of group_size 32"));
    assert_eq!(simd_gemv_threadgroups(0), 0);
    assert_eq!(simd_gemv_threadgroups(8), 1);
    assert_eq!(simd_gemv_threadgroups(9), 2);
}

/// The packed nibbles and the scales of a bank.
fn mlx_bank(b: &mut Bench, rows: usize, cols: usize, group: usize) -> (GpuBuffer, GpuBuffer) {
    (b.bytes(rows * cols / 2), b.bytes(rows * (cols / group) * 8))
}

#[test]
fn quantized_gemv_walks_eight_rows_per_group() {
    let mut b = Bench::new();
    let (rows, cols) = (20u32, 64u32);
    let (packed, scales, zeros) = (b.bytes(20 * 64), b.words(20 * 2), b.words(20 * 2));
    let (x, y) = (b.words(64), b.words(20));
    gemv_q8(&mut b.rt, &packed, &scales, &zeros, &x, &y, rows, cols, 32).unwrap();
    let l = b.launch();
    assert_eq!(
        l.slots,
        row(&[at(&packed), at(&scales), at(&zeros), at(&x), at(&y), Slot::Word(20), Slot::Word(64), Slot::Word(32)])
    );
    assert_eq!((l.groups, l.threads), ((3, 1), 64));

    let bank = Q4Bank { packed: &packed, scales: &scales, zeros: &zeros };
    let shape = QuantShape { rows, cols, group_size: 32 };
    gemv_q4(&mut b.rt, bank, &x, &y, shape, true).unwrap();
    let l = b.launch();
    assert_eq!((l.kernel.as_str(), l.groups, l.threads), ("gemv_q4_tiled", (20, 1), 128));
    gemv_q4(&mut b.rt, bank, &x, &y, shape, false).unwrap();
    let l = b.launch();
    assert_eq!((l.kernel.as_str(), l.groups, l.threads), ("gemv_q4", (3, 1), 64));
}

#[test]
fn activation_caches_are_bounded_by_the_device() {
    let mut b = Bench::new();
    // 8200 floats do not fit 32 KiB of threadgroup memory.
    let cols = 8200usize;
    let (packed, scales, zeros) = (b.bytes(cols), b.words(cols / 8), b.words(cols / 8));
    let bank = Q4Bank { packed: &packed, scales: &scales, zeros: &zeros };
    let (x, y) = (b.words(cols), b.words(1));
    let shape = QuantShape { rows: 1, cols: cols as u32, group_size: 8 };
    let err = gemv_q4(&mut b.rt, bank, &x, &y, shape, false).unwrap_err();
    assert!(err.contains("caching x needs 32800 bytes"), "{err}");
    b.quiet();
    gemv_q4(&mut b.rt, bank, &x, &y, shape, true).unwrap();
}

#[test]
fn mlx_banks_pick_kernel_by_layout_and_residual() {
    let mut b = Bench::new();
    let (packed, scales_biases) = mlx_bank(&mut b, 16, 512, 64);
    let bank = Q4MlxBank { packed: &packed, scales_biases: &scales_biases };
    let shape = QuantShape { rows: 16, cols: 512, group_size: 64 };
    let (x, y, resid) = (b.bytes(512 * 2), b.words(16), b.words(16));
    gemv_q4_mlx_simd(&mut b.rt, bank, &x, &y, shape, Q4MlxLayout::RowMajor, None).unwrap();
    let l = b.launch();
    assert_eq!((l.kernel.as_str(), l.groups), ("gemv_q4_mlx_simd", (2, 1)));
    gemv_q4_mlx_simd(&mut b.rt, bank, &x, &y, shape, Q4MlxLayout::Interleaved4, Some(&resid))
        .unwrap();
    assert_eq!(b.launch().kernel, "gemv_q4_mlx_simd_add_i4");
    let odd = QuantShape { group_size: 16, ..shape };
    let err = gemv_q4_mlx_simd(&mut b.rt, bank, &x, &y, odd, Q4MlxLayout::RowMajor, None)
        .unwrap_err();
    assert!(err.contains("{32, 64, 128, 256, 512}"), "{err}");
    let m = GEMM_Q4_MLX_MAX_M + 1;
    let (xs, ys) = (b.bytes(512 * 2 * m as usize), b.words(16 * m as usize));
    assert!(
        gemm_q4_mlx(&mut b.rt, bank, &xs, &ys, shape, m, Q4MlxLayout::RowMajor, None).is_err()
    );
    b.quiet();
}

#[test]
fn embeddings_look_up_every_token() {
    let mut b = Bench::new();
    let (packed, scales_biases) = mlx_bank(&mut b, 100, 64, 32);
    let bank = Q4MlxBank { packed: &packed, scales_biases: &scales_biases };
    let (ids, out) = (b.words(3), b.words(3 * 64));
    embed_lookup_q4_mlx(&mut b.rt, bank, &ids, &out, 100, 64, 32, 3).unwrap();
    let l = b.launch();
    assert_eq!(l.kernel, "embed_lookup_q4_mlx");
    assert!(l.groups.0 * l.groups.1 * l.threads >= 3 * 64 || l.groups.1 == 3);
    assert!(embed_lookup_q4_mlx(&mut b.rt, bank, &ids, &out, 100, 64, 32, 4).is_err());
}

#[test]
fn int8_products_need_a_finite_scale() {
    let mut b = Bench::new();
    let (a, w, c) = (b.bytes(16 * 32), b.bytes(32 * 16), b.words(16 * 16));
    assert!(gemm_i8_dequant(&mut b.rt, &a, &w, &c, 16, 16, 32, f(f32::NAN), None).is_err());
    b.quiet();
    gemm_i8_dequant(&mut b.rt, &a, &w, &c, 16, 16, 32, f(0.25), None).unwrap();
    assert!(!b.launches().is_empty());
    assert!(is_finite(f(f32::MAX)) && !is_finite(f(f32::INFINITY)) && !is_finite(f(f32::NAN)));
}

// -------------------------------------------------------------- attention --

#[test]
fn decode_parameters_follow_the_head_dimension() {
    for (d, chunk, lanes, block, groups, rows) in [
        (128, DecodeChunk::C256, RowsLanes::R8, DecodeHeadBlock::Group, RowsGroups::G8, 8),
        (256, DecodeChunk::C128, RowsLanes::R16, DecodeHeadBlock::Group, RowsGroups::G32, 16),
        (512, DecodeChunk::C128, RowsLanes::R32, DecodeHeadBlock::AllHeads, RowsGroups::G32, 32),
    ] {
        assert_eq!(decode_chunk_for(d), chunk);
        assert_eq!(decode_lanes_for(d), lanes);
        assert_eq!(decode_head_block_for(d), block);
        assert_eq!(rows_groups_for(d), groups);
        assert_eq!(rows_lanes_for(d).width(), rows);
    }
    assert_eq!(attn_kernel_for(1, 4096), AttnKernel::SplitKv);
    assert_eq!(attn_kernel_for(1, 0), AttnKernel::Rows);
    assert_eq!(attn_kernel_for(2, 4096), AttnKernel::Rows);
    assert_eq!(
        decode_entries(256, DecodeChunk::C64, RowsLanes::R32),
        Some((
            "flash_attn_decode_partial_h256_c64_r32".to_string(),
            "flash_attn_decode_reduce_h256_c64".to_string()
        ))
    );
    assert_eq!(decode_entries(64, DecodeChunk::C64, RowsLanes::R32), None);
    assert_eq!(
        rows_entry(512, RowsLanes::R16, RowsGroups::G8),
        Some("flash_attn_rows_h512_r16_g8".to_string())
    );
}

#[test]
fn parameters_parse_and_refusals_quote() {
    assert_eq!(DecodeChunk::parse("128").unwrap().keys(), 128);
    assert_eq!(RowsGroups::parse("32").unwrap().count(), 32);
    assert_eq!(DecodeHeadBlock::parse("group").unwrap(), DecodeHeadBlock::Group);
    let err = DecodeChunk::parse("1\"2\n").unwrap_err();
    assert!(err.contains(r#""1\"2\n""#), "{err}");
    assert!(RowsLanes::parse("7").unwrap_err().contains("\"7\""));
    assert!(DecodeHeadBlock::parse("Group").is_err());
}

#[test]
fn head_blocks_divide_the_heads() {
    assert_eq!(DecodeHeadBlock::One.simdgroups(8, 4), Some(1));
    assert_eq!(DecodeHeadBlock::Group.simdgroups(8, 4), Some(4));
    assert_eq!(DecodeHeadBlock::AllHeads.simdgroups(8, 4), Some(8));
    assert_eq!(DecodeHeadBlock::AllHeads.simdgroups(64, 4), None);
    assert_eq!(DecodeHeadBlock::Group.simdgroups(10, 4), None);
}

struct Attn {
    q: GpuBuffer,
    k: GpuBuffer,
    v: GpuBuffer,
    o: GpuBuffer,
    tkv: GpuBuffer,
    qp: GpuBuffer,
    kp: GpuBuffer,
}

fn attn(b: &mut Bench, dims: AttnDims, d: usize, capacity: usize) -> Attn {
    let q = dims.batch as usize * dims.tq as usize * dims.heads as usize * d;
    let kv = dims.batch as usize * capacity * dims.heads_kv as usize * d;
    Attn {
        q: b.words(q),
        k: b.words(kv),
        v: b.words(kv),
        o: b.words(q),
        tkv: b.words(1),
        qp: b.words(1),
        kp: b.words(1),
    }
}

#[test]
fn decode_attention_splits_the_cache() {
    let mut b = Bench::new();
    let dims = AttnDims { batch: 1, tq: 1, heads: 8, heads_kv: 2, window: 0, scale: f(0.125) };
    let x = attn(&mut b, dims, 128, 1024);
    assert_eq!(attn_kv_capacity(&x.k, &x.v, 1, 2, 128).unwrap(), 1024);
    flash_attn_decode(
        &mut b.rt, &x.q, &x.k, &x.v, &x.o, &x.tkv, &x.qp, &x.kp, dims, 128, 1024, false,
    )
    .unwrap();
    let all = b.launches();
    assert_eq!(all.len(), 2);
    // Four chunks of 256 keys; the four heads of a KV group share a threadgroup.
    assert_eq!(all[0].kernel, "flash_attn_decode_partial_h128_c256_r8");
    assert_eq!((all[0].groups, all[0].threads), ((4, 2), 128));
    assert_eq!(all[1].kernel, "flash_attn_decode_reduce_h128_c256");
    assert_eq!((all[1].groups, all[1].threads), ((1, 8), 128));
    assert_eq!(all[0].slots[3].1, all[1].slots[0].1, "one scratch for both");

    let two = AttnDims { tq: 2, ..dims };
    let err = flash_attn_decode(
        &mut b.rt, &x.q, &x.k, &x.v, &x.o, &x.tkv, &x.qp, &x.kp, two, 128, 1024, false,
    )
    .unwrap_err();
    assert!(err.starts_with("flash_attn_decode is the Tq == 1 path; got Tq = 2"), "{err}");
    let err = flash_attn_decode(
        &mut b.rt, &x.q, &x.k, &x.v, &x.o, &x.tkv, &x.qp, &x.kp, dims, 128, 1000, false,
    )
    .unwrap_err();
    assert!(err.contains("declared kv_capacity 1000 does not match"), "{err}");
    b.quiet();
}

#[test]
fn row_attention_serves_prefill() {
    let mut b = Bench::new();
    let dims = AttnDims { batch: 1, tq: 5, heads: 4, heads_kv: 4, window: 512, scale: f(1.0) };
    let x = attn(&mut b, dims, 256, 16);
    flash_attn_rows(
        &mut b.rt, &x.q, &x.k, &x.v, &x.o, &x.tkv, &x.qp, &x.kp, dims, 256, false,
    )
    .unwrap();
    let l = b.launch();
    assert_eq!(l.kernel, "flash_attn_rows_h256_r16_g32");
    // 32 simdgroups of two rows each take all five positions of a head.
    assert_eq!((l.groups, l.threads), ((1, 4), 1024));
    // An f32 output may take the place of the queries; a packed one may not,
    // and none may take that of the keys.
    flash_attn_rows(
        &mut b.rt, &x.q, &x.k, &x.v, &x.q, &x.tkv, &x.qp, &x.kp, dims, 256, false,
    )
    .unwrap();
    assert_eq!(b.launch().kernel, "flash_attn_rows_h256_r16_g32");
    let err = flash_attn_rows(
        &mut b.rt, &x.q, &x.k, &x.v, &x.q, &x.tkv, &x.qp, &x.kp, dims, 256, true,
    )
    .unwrap_err();
    assert_eq!(err, "flash_attn_rows: bf16 output must not alias the f32 q input");
    let err = flash_attn_rows(
        &mut b.rt, &x.q, &x.k, &x.v, &x.k, &x.tkv, &x.qp, &x.kp, dims, 256, false,
    )
    .unwrap_err();
    assert_eq!(err, "flash_attn_rows: output must not alias read-only k input");
    b.quiet();
}

// ------------------------------------------------------------------- rope --

#[test]
fn rope_binds_by_variant() {
    let mut b = Bench::new();
    let dims = QkvRopeDims {
        t: 2,
        heads_q: 4,
        heads_kv: 2,
        head_dim: 64,
        rotary_dim: 32,
        theta: f(10000.0),
        eps: f(1e-6),
    };
    let (q, k, v) = (b.words(2 * 4 * 64), b.words(2 * 2 * 64), b.words(2 * 2 * 64));
    let (q_weight, k_weight, v_weight) = (b.words(64), b.words(64), b.words(64));
    let qkv = QkvBuffers {
        q: &q,
        k: &k,
        v: &v,
        q_weight: &q_weight,
        k_weight: &k_weight,
        v_weight: &v_weight,
    };
    rms_qkv_rope(&mut b.rt, QkvRopeVariant::PosConst, qkv, dims, 7, None, None, false).unwrap();
    let l = b.launch();
    assert_eq!(l.kernel, "rms_qkv_rope");
    assert_eq!(l.slots[0..3], row(&[at(&q), at(&k), at(&v)]));
    assert_eq!(l.slots[6..12].iter().map(|s| s.1).collect::<Vec<_>>(), [
        Slot::Word(2),
        Slot::Word(4),
        Slot::Word(2),
        Slot::Word(64),
        Slot::Word(32),
        Slot::Word(7)
    ]);
    // 2 positions of 4 + 2 + 2 heads, eight rows per threadgroup.
    assert_eq!((l.groups, l.threads), ((2, 1), 256));

    let pos = b.words(1);
    rms_qkv_rope(&mut b.rt, QkvRopeVariant::PosBuffer, qkv, dims, 0, Some(&pos), None, false)
        .unwrap();
    let l = b.launch();
    assert_eq!(l.kernel, "rms_qkv_rope_posbuf");
    assert_eq!(l.slots[11], (11, at(&pos)));

    let (dst_k, dst_v, dst_offset) = (b.words(1024), b.words(1024), b.words(1));
    let store = KvStoreTarget {
        dst_k: &dst_k,
        dst_v: &dst_v,
        dst_offset: &dst_offset,
        capacity: 1024,
    };
    let variant = QkvRopeVariant::PosBufferKvStore;
    rms_qkv_rope(&mut b.rt, variant, qkv, dims, 0, Some(&pos), Some(store), false).unwrap();
    let l = b.launch();
    assert_eq!(l.slots[17], (17, Slot::Word(1024)));

    let err = rms_qkv_rope(&mut b.rt, variant, qkv, dims, 0, Some(&pos), None, false).unwrap_err();
    assert_eq!(err, "rms_qkv_rope: PosBufferKvStore requires a KvStoreTarget");
    let small = KvStoreTarget { capacity: 255, ..store };
    let err = rms_qkv_rope(&mut b.rt, variant, qkv, dims, 0, Some(&pos), Some(small), false)
        .unwrap_err();
    assert_eq!(
        err,
        "rms_qkv_rope: cache capacity 255 is smaller than the K/V span 256"
    );
    let odd = QkvRopeDims { rotary_dim: 33, ..dims };
    let err =
        validate_rms_qkv_rope(&b.rt, QkvRopeVariant::PosConst, qkv, odd, None, None, false)
            .unwrap_err();
    assert!(err.contains("rotary_dim 33 is odd"), "{err}");
    assert!(rms_qkv_rope(&mut b.rt, variant, qkv, dims, 0, Some(&pos), Some(store), true)
        .unwrap_err()
        .contains("q_only cannot use PosBufferKvStore"));
    b.quiet();
}

// ------------------------------------------------------------------- GEMM --

#[test]
fn batched_products_check_their_strides() {
    let mut b = Bench::new();
    let (m, n, k) = (16usize, 32usize, 64usize);
    let a = b.rt.alloc_tensor_bf16(&[3 * m * k]).unwrap();
    let w = b.rt.alloc_tensor_bf16(&[3 * k * n]).unwrap();
    let c = b.rt.alloc_tensor_f32(&[3 * m * n]).unwrap();
    let spec = BatchedGemm { m, n, k, batch: 3, strides: BatchStrides::contiguous(m, n, k) };
    gemm_batched(&mut b.rt, &a, &w, &c, GemmBackend::TensorOps, spec).unwrap();
    let l = b.launch();
    assert_eq!(l.kernel, "matmul2d_tensorops_bf16_f32_batched");
    assert_eq!(l.groups, (1, 3));
    let four = BatchedGemm { batch: 4, ..spec };
    assert!(gemm_batched(&mut b.rt, &a, &w, &c, GemmBackend::TensorOps, four).is_err());
    // A shared B needs only one of its matrices.
    let one = b.rt.alloc_tensor_bf16(&[k * n]).unwrap();
    let shared = BatchedGemm { strides: BatchStrides::shared_b(m, n, k), ..spec };
    gemm_batched(&mut b.rt, &a, &one, &c, GemmBackend::TensorOps, shared).unwrap();
    assert_eq!(b.launches().len(), 1);
}

#[test]
fn epilogues_bind_bias_and_activation() {
    let mut b = Bench::new();
    let (m, n, k) = (16usize, 32usize, 64usize);
    let a = b.rt.alloc_tensor_bf16(&[m, k]).unwrap();
    let w = b.rt.alloc_tensor_bf16(&[k, n]).unwrap();
    let c = b.rt.alloc_tensor_f32(&[m, n]).unwrap();
    let bias = b.rt.alloc_tensor_f32(&[n]).unwrap();
    let epi = Epilogue {
        bias: Some(&bias),
        alpha: f(1.0),
        beta: f(0.0),
        activation: Activation::Silu,
    };
    gemm_epilogue(&mut b.rt, &a, &w, &c, GemmBackend::TensorOps, epi).unwrap();
    assert_eq!(b.launch().kernel, "matmul2d_tensorops_bf16_f32_epi");
    let bad = Epilogue {
        bias: Some(&bias),
        alpha: f(f32::NAN),
        beta: f(0.0),
        activation: Activation::Silu,
    };
    assert!(gemm_epilogue(&mut b.rt, &a, &w, &c, GemmBackend::TensorOps, bad).is_err());
    let short = b.rt.alloc_tensor_f32(&[n - 1]).unwrap();
    let narrow = Epilogue {
        bias: Some(&short),
        alpha: f(1.0),
        beta: f(0.0),
        activation: Activation::Silu,
    };
    assert!(gemm_epilogue(&mut b.rt, &a, &w, &c, GemmBackend::TensorOps, narrow).is_err());
    b.quiet();
}

#[test]
fn foreign_buffers_are_refused_by_every_family() {
    let mut b = Bench::new();
    let mut other = Bench::with_id(2);
    let foreign = other.words(64);
    let (x, w) = (b.words(64), b.words(64));
    for err in [
        rms_norm_f32(&mut b.rt, &foreign, &w, &x, 1, 64, f(1e-6)).unwrap_err(),
        mlp_silu(&mut b.rt, &x, &foreign, &w, 64).unwrap_err(),
        kv_store_timestep(&mut b.rt, &x, &foreign, &w, 1, 64).unwrap_err(),
        softmax_rows_f32(&mut b.rt, &x, &foreign, 1, 64).unwrap_err(),
    ] {
        assert!(err.contains("buffer belongs to another runtime"), "{err}");
    }
    b.quiet();
}
