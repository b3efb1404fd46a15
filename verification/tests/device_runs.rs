//! Whole runs against a device simulated on the host: the operation log is
//! carried out in order, commands run when their command buffer is submitted,
//! and every launch is checked to cover the output it writes.

use std::collections::{BTreeMap, HashMap};

use tessl::ab_flags::{AbFlags, Env};
use tessl::capture::buf_gpu_addr;
use tessl::decode_icb::pipeline_icb;
use tessl::device::{
    mtl_size, DeviceInfo, DeviceOp, Kernel, MtlSize, Pipeline, ARGUMENT_TABLE_MAX_BUFFERS,
    METAL4_CONST_ARENA_BYTES,
};
use tessl::dispatch::{dispatch_1d, set_gpu_buf, set_u32};
use tessl::gemm::{
    cast_bf16_to_f32, cast_f32_to_bf16, gemm, gemm_f32, gemm_nt_accum_train, gemm_nt_f32,
    gemm_nt_train, gemm_tn_accum_train, gemm_tn_f32, gemm_tn_train, gemm_train, select_backend,
    GemmBackend,
};
use tessl::gemm::tiles::prefer_tn_splitk;
use tessl::icb_flags::{set_decode_icb, set_icb_coarse_ranges, set_icb_range_batch, IcbFlags};
use tessl::infer_trace::InferTrace;
use tessl::runtime::GpuRuntime;
use tessl::state::PrecisionMode;
use tessl::tensor::{
    bf16_bits_to_f32, f32_slice_to_bf16, f32_to_bf16_bits, gpu_copy, GpuBuffer, Tensor,
};
use tessl::{
    CbReplayPhase, CbSlot, DecodeIcb, DecodeIcbBind, DecodeIcbCommand, IcbStubPhase,
    PingPongCbReplay,
};

// ------------------------------------------------------------- device ------

const KERNELS: &[&str] = &[
    "copy_f32",
    "copy_bf16",
    "zero_f32",
    "add_inplace_f32",
    "transpose2d_f32",
    "cast_f32_to_bf16",
    "cast_bf16_to_f32",
    "matmul_simdgroup_f32",
    "matmul_simdgroup_edges_f32",
    "matmul2d_tensorops_f32",
    "matmul2d_tensorops_f32_relaxed",
    "matmul2d_tensorops_f32_relaxed_64x64_sg4",
    "matmul2d_tensorops_bf16_f32",
    "matmul2d_tensorops_bf16_f32_64x64_sg4",
    "matmul2d_tensorops_tn_f32",
    "matmul2d_tensorops_tn_bf16_f32",
    "matmul2d_tensorops_tn_accum_f32",
    "matmul2d_tensorops_tn_accum_bf16_f32",
    "matmul2d_tensorops_tn_splitk_f32",
    "matmul2d_tensorops_tn_splitk_bf16_f32",
    "matmul2d_tensorops_nt_f32",
    "matmul2d_tensorops_nt_bf16_f32",
    "matmul2d_tensorops_nt_accum_f32",
    "matmul2d_tensorops_nt_accum_bf16_f32",
];

const ARENA: u64 = 0x1_0000_0000;

type Table = [u64; ARGUMENT_TABLE_MAX_BUFFERS];

const EMPTY: Table = [0; ARGUMENT_TABLE_MAX_BUFFERS];

/// A dispatch as encoded, with the addresses its table held at that time.
struct Command {
    kernel: usize,
    table: Table,
    groups: MtlSize,
    threads: MtlSize,
}

struct IcbEntry {
    pipeline: Pipeline,
    table: Table,
    grid: Option<(MtlSize, MtlSize)>,
}

struct Icb {
    freeze: bool,
    entries: Vec<Option<IcbEntry>>,
}

struct Device {
    rt: GpuRuntime,
    /// Storage by the address of its first byte.
    memory: BTreeMap<u64, Vec<u8>>,
    address_of: HashMap<u64, u64>,
    tables: HashMap<u64, Table>,
    icbs: HashMap<u64, Icb>,
    pipeline: Option<Pipeline>,
    table: Option<u64>,
    encoded: Vec<Command>,
    dispatches: usize,
}

fn no_env() -> Env {
    Env { vars: Vec::new() }
}

fn runtime(id: u64) -> GpuRuntime {
    let kernels = KERNELS
        .iter()
        .map(|name| Kernel {
            name: name.to_string(),
            library: 0,
            thread_execution_width: 32,
            max_threads: 1024,
            icb_capable: true,
        })
        .collect();
    GpuRuntime::new(
        id,
        DeviceInfo {
            max_buffer_length: 1 << 32,
            max_threadgroup_memory: 32768,
            arena_address: ARENA,
            recommended_working_set: 1 << 34,
            memory_size: 1 << 35,
            counter_heap: false,
        },
        kernels,
        1 << 33,
        AbFlags::new(no_env()),
        IcbFlags::new(),
        InferTrace::new(),
    )
}

fn words(bytes: &[u8]) -> Vec<f32> {
    bytes
        .chunks_exact(4)
        .map(|c| f32::from_le_bytes([c[0], c[1], c[2], c[3]]))
        .collect()
}

fn bits(values: &[f32]) -> Vec<u32> {
    values.iter().map(|x| x.to_bits()).collect()
}

/// Rows and columns of the tile that one threadgroup of a kernel writes.
fn tile_of(kernel: &str) -> (usize, usize) {
    if kernel.contains("simdgroup") {
        (16, 16)
    } else if kernel.contains("splitk_bf16") {
        (64, 32)
    } else if kernel.contains("64x64") || kernel.contains("accum_bf16") {
        (64, 64)
    } else if kernel.contains("bf16") || kernel.contains("relaxed") {
        (128, 64)
    } else {
        (32, 32)
    }
}

impl Device {
    fn new() -> Device {
        Device::with_id(1)
    }

    fn with_id(id: u64) -> Device {
        let mut memory = BTreeMap::new();
        memory.insert(ARENA, vec![0u8; METAL4_CONST_ARENA_BYTES]);
        Device {
            rt: runtime(id),
            memory,
            address_of: HashMap::new(),
            tables: HashMap::from([(0, EMPTY)]),
            icbs: HashMap::new(),
            pipeline: None,
            table: None,
            encoded: Vec::new(),
            dispatches: 0,
        }
    }

    /// Storage from `address` on.
    fn at(&self, address: u64) -> &[u8] {
        let (base, bytes) = self.memory.range(..=address).next_back().unwrap();
        &bytes[(address - base) as usize..]
    }

    fn at_mut(&mut self, address: u64) -> &mut [u8] {
        let (base, bytes) = self.memory.range_mut(..=address).next_back().unwrap();
        &mut bytes[(address - base) as usize..]
    }

    fn slab(&mut self, id: u64) -> &mut [u8] {
        let address = self.address_of[&id];
        self.at_mut(address)
    }

    /// Carries out everything the library has asked for so far.
    fn run(&mut self) {
        let (ops, blob) = self.rt.take_ops();
        for op in ops {
            match op {
                DeviceOp::CreateBuffer { made } => {
                    assert!(!self.address_of.contains_key(&made.id));
                    self.address_of.insert(made.id, made.address);
                    self.memory.insert(made.address, vec![0u8; made.length]);
                    self.rt.creation_confirmed(op);
                }
                DeviceOp::Zero { slab, offset, len } => {
                    self.slab(slab)[offset..offset + len].fill(0);
                }
                DeviceOp::HostWrite { slab, from, len } => {
                    self.slab(slab)[..len].copy_from_slice(&blob[from..from + len]);
                }
                DeviceOp::HostRamp { slab, floats } => {
                    let ramp: Vec<f32> = (0..floats).map(|i| i as f32 + 1.0).collect();
                    let address = self.address_of[&slab];
                    self.put(address, &ramp);
                }
                DeviceOp::WriteConst { offset, from, len } => {
                    self.at_mut(ARENA)[offset..offset + len]
                        .copy_from_slice(&blob[from..from + len]);
                }
                DeviceOp::OpenEncoder => {
                    self.pipeline = None;
                    self.table = None;
                }
                DeviceOp::SetPipeline { pipeline } => self.pipeline = Some(pipeline),
                DeviceOp::SetAddress { index, address } => {
                    self.tables.get_mut(&0).unwrap()[index] = address;
                }
                DeviceOp::CreateTable { table } => {
                    self.tables.insert(table, EMPTY);
                }
                DeviceOp::SetTableAddress { table, index, address } => {
                    self.tables.get_mut(&table).unwrap()[index] = address;
                }
                DeviceOp::UseTable { table } => self.table = Some(table),
                DeviceOp::Dispatch { groups, threads } => {
                    let table = self.tables[&self.table.unwrap()];
                    let kernel = self.pipeline.unwrap().kernel;
                    self.encoded.push(Command { kernel, table, groups, threads });
                }
                DeviceOp::CreateIcb { icb, freeze, capacity } => {
                    let entries = (0..capacity).map(|_| None).collect();
                    self.icbs.insert(icb, Icb { freeze, entries });
                }
                DeviceOp::IcbReset { icb, at, pipeline } => {
                    assert!(pipeline.icb);
                    self.icbs.get_mut(&icb).unwrap().entries[at] =
                        Some(IcbEntry { pipeline, table: EMPTY, grid: None });
                }
                DeviceOp::IcbKernelBuffer { icb, at, index, slab, offset } => {
                    let address = self.address_of[&slab] + offset as u64;
                    let entry = self.icbs.get_mut(&icb).unwrap().entries[at].as_mut();
                    entry.unwrap().table[index] = address;
                }
                DeviceOp::IcbDispatch { icb, at, groups, threads } => {
                    let entry = self.icbs.get_mut(&icb).unwrap().entries[at].as_mut();
                    entry.unwrap().grid = Some((groups, threads));
                }
                DeviceOp::ExecuteIcb { icb, start, count } => {
                    let icb = &self.icbs[&icb];
                    for at in start..start + count {
                        let entry = icb.entries[at as usize].as_ref().unwrap();
                        let (groups, threads) = entry.grid.unwrap();
                        let table = if icb.freeze {
                            entry.table
                        } else {
                            self.tables[&self.table.unwrap()]
                        };
                        let kernel = entry.pipeline.kernel;
                        self.encoded.push(Command { kernel, table, groups, threads });
                    }
                }
                DeviceOp::Submit => {
                    let commands = std::mem::take(&mut self.encoded);
                    for command in &commands {
                        self.launch(command);
                    }
                }
                _ => {}
            }
        }
    }

    fn put(&mut self, address: u64, values: &[f32]) {
        let bytes: Vec<u8> = values.iter().flat_map(|x| x.to_le_bytes()).collect();
        self.at_mut(address)[..bytes.len()].copy_from_slice(&bytes);
    }

    fn floats(&self, address: u64, count: usize) -> Vec<f32> {
        words(&self.at(address)[..count * 4])
    }

    fn halves(&self, address: u64, count: usize) -> Vec<f32> {
        self.at(address)[..count * 2]
            .chunks_exact(2)
            .map(|c| f32::from_bits(bf16_bits_to_f32(u16::from_le_bytes([c[0], c[1]]))))
            .collect()
    }

    fn word(&self, address: u64) -> usize {
        let b = &self.at(address)[..4];
        u32::from_le_bytes([b[0], b[1], b[2], b[3]]) as usize
    }

    fn launch(&mut self, command: &Command) {
        self.dispatches += 1;
        let name = KERNELS[command.kernel];
        let t = &command.table;
        let lanes = command.groups.width * command.threads.width;
        match name {
            "copy_f32" | "copy_bf16" => {
                let n = self.word(t[2]);
                assert!(lanes >= n);
                let size = if name == "copy_f32" { 4 } else { 2 };
                let bytes = self.at(t[0])[..n * size].to_vec();
                self.at_mut(t[1])[..n * size].copy_from_slice(&bytes);
            }
            "zero_f32" => {
                let n = self.word(t[1]);
                assert!(lanes >= n);
                self.at_mut(t[0])[..n * 4].fill(0);
            }
            "add_inplace_f32" => {
                let n = self.word(t[2]);
                assert!(lanes >= n);
                let more = self.floats(t[1], n);
                let mut sum = self.floats(t[0], n);
                for (s, x) in sum.iter_mut().zip(&more) {
                    *s += x;
                }
                self.put(t[0], &sum);
            }
            "transpose2d_f32" => {
                let (rows, cols) = (self.word(t[2]), self.word(t[3]));
                assert!(lanes >= rows * cols);
                let src = self.floats(t[0], rows * cols);
                let mut out = vec![0.0f32; rows * cols];
                for r in 0..rows {
                    for c in 0..cols {
                        out[c * rows + r] = src[r * cols + c];
                    }
                }
                self.put(t[1], &out);
            }
            "cast_f32_to_bf16" => {
                let n = self.word(t[2]);
                assert!(lanes >= n);
                let out: Vec<u8> = f32_slice_to_bf16(&bits(&self.floats(t[0], n)))
                    .iter()
                    .flat_map(|h| h.to_le_bytes())
                    .collect();
                self.at_mut(t[1])[..n * 2].copy_from_slice(&out);
            }
            "cast_bf16_to_f32" => {
                let n = self.word(t[2]);
                assert!(lanes >= n);
                let out = self.halves(t[0], n);
                self.put(t[1], &out);
            }
            _ => self.multiply(name, command),
        }
    }

    fn multiply(&mut self, name: &str, command: &Command) {
        let t = &command.table;
        let (m, n, k) = (self.word(t[3]), self.word(t[4]), self.word(t[5]));
        let (sm, sn) = tile_of(name);
        let (across, down) = (n.div_ceil(sn), m.div_ceil(sm));
        let splits = name.contains("splitk");
        if name.contains("simdgroup") {
            assert_eq!((command.groups.width, command.groups.height), (across, down));
        } else {
            let first = if splits { 8 } else { 6 };
            assert_eq!((self.word(t[first]), self.word(t[first + 1])), (across, down));
            assert_eq!(command.groups.width, across * down);
        }
        let narrow = name.contains("bf16");
        let load = |dev: &Device, address: u64, count: usize| {
            if narrow {
                dev.halves(address, count)
            } else {
                dev.floats(address, count)
            }
        };
        let a = load(self, t[0], m * k);
        let b = load(self, t[1], k * n);
        let (from, to) = if splits {
            let from = self.word(t[6]);
            (from, (from + self.word(t[7])).min(k))
        } else {
            (0, k)
        };
        let tn = name.contains("_tn_");
        let nt = name.contains("_nt_");
        // The exact f32 kernels add to a C that was zeroed before them; the
        // cooperative and simdgroup ones overwrite it.
        let adds = splits || name.contains("accum") || tile_of(name) == (32, 32);
        let mut c = if adds {
            self.floats(t[2], m * n)
        } else {
            vec![0.0f32; m * n]
        };
        for i in 0..m {
            let row = &mut c[i * n..(i + 1) * n];
            for p in from..to {
                let x = if tn { a[p * m + i] } else { a[i * k + p] };
                if nt {
                    for j in 0..n {
                        row[j] += x * b[j * k + p];
                    }
                } else {
                    for (y, z) in row.iter_mut().zip(&b[p * n..(p + 1) * n]) {
                        *y += x * z;
                    }
                }
            }
        }
        self.put(t[2], &c);
    }

    // --------------------------------------------------------- host side ---

    fn tensor(&mut self, shape: &[usize]) -> Tensor {
        self.rt.alloc_tensor_f32(shape).unwrap()
    }

    fn tensor_bf16(&mut self, shape: &[usize]) -> Tensor {
        self.rt.alloc_tensor_bf16(shape).unwrap()
    }

    fn write(&mut self, buf: &GpuBuffer, values: &[f32]) {
        buf.write_f32(&mut self.rt, &bits(values)).unwrap();
    }

    fn write_bf16(&mut self, buf: &GpuBuffer, values: &[f32]) {
        buf.write_bf16_bits(&mut self.rt, &f32_slice_to_bf16(&bits(values)))
            .unwrap();
    }

    /// Floats of a buffer, once the device is idle.
    fn read(&mut self, buf: &GpuBuffer) -> Vec<f32> {
        let map = buf.try_contents_f32(&mut self.rt, 0x10000).unwrap();
        self.run();
        let out = self.floats(buf.at().slab.address, map.len());
        self.rt.unmap_host(map);
        out
    }

    fn finish(&mut self) {
        self.rt.synchronize().unwrap();
        self.run();
    }

    /// Overwrites a buffer behind the library's back.
    fn poke(&mut self, buf: &GpuBuffer, byte: u8) {
        self.run();
        self.at_mut(buf.at().slab.address)[..buf.nbytes()].fill(byte);
    }

    fn drop_tensor(&mut self, t: Tensor) {
        self.rt.recycle_buffer(t.buffer);
    }
}

fn ramp(n: usize, start: f32) -> Vec<f32> {
    (0..n).map(|i| i as f32 + start).collect()
}

// ------------------------------------------------------- single dispatches --

#[test]
fn binder_path_copy_via_dispatch_1d() {
    let mut dev = Device::new();
    let n = 32usize;
    let src = dev.rt.alloc_buffer(n * 4).unwrap();
    let dst = dev.rt.alloc_buffer(n * 4).unwrap();
    let values: Vec<f32> = (0..n).map(|i| i as f32 * 2.0).collect();
    dev.write(&src, &values);
    let pipe = dev.rt.pipeline("copy_f32").unwrap();
    dispatch_1d(&mut dev.rt, &pipe, n, |bnd| {
        set_gpu_buf(bnd, &src, 0);
        set_gpu_buf(bnd, &dst, 1);
        set_u32(bnd, n as u32, 2);
    })
    .unwrap();
    dev.finish();
    let out = dev.read(&dst);
    for (i, v) in out.iter().take(n).enumerate() {
        assert_eq!(*v, (i as f32) * 2.0);
    }
}

#[test]
fn metal4_encode_smoke_copy() {
    let mut dev = Device::new();
    let n = 64usize;
    let src = dev.rt.alloc_buffer(n * 4).unwrap();
    let dst = dev.rt.alloc_buffer(n * 4).unwrap();
    dev.write(&src, &ramp(n, 1.0));
    dst.zero(&mut dev.rt).unwrap();
    let pipe = dev.rt.pipeline("copy_f32").unwrap();
    let tpt = pipe.thread_execution_width.min(n).max(1);
    let groups = n.div_ceil(tpt);
    dev.rt
        .with_binder(|bnd| {
            bnd.set_pipeline(&pipe);
            bnd.bind_gpu_buf(&src, 0);
            bnd.bind_gpu_buf(&dst, 1);
            bnd.bind_u32(n as u32, 2);
            bnd.dispatch(mtl_size(groups, 1, 1), mtl_size(tpt, 1, 1));
            Ok(())
        })
        .expect("smoke");
    dev.finish();
    for (i, v) in dev.read(&dst).into_iter().enumerate() {
        assert_eq!(v, (i + 1) as f32, "smoke mismatch at {i}");
    }
    if dev.rt.metal4_counter_heap_available() {
        let stamps = dev.rt.take_metal4_stamps().expect("expected timestamps");
        assert!(stamps.1 >= stamps.0, "timestamps not monotonic: {stamps:?}");
    }
}

#[test]
fn metal4_batched_multi_dispatch_const_arena() {
    let mut dev = Device::new();
    dev.rt.set_async_encode(true).unwrap();
    let n1 = 16usize;
    let n2 = 24usize;
    let src1 = dev.rt.alloc_buffer(n1 * 4).unwrap();
    let mid = dev.rt.alloc_buffer(n1.max(n2) * 4).unwrap();
    let dst = dev.rt.alloc_buffer(n2 * 4).unwrap();
    dev.write(&src1, &ramp(n1, 1.0));
    mid.zero(&mut dev.rt).unwrap();
    dst.zero(&mut dev.rt).unwrap();
    let src2 = dev.rt.alloc_buffer(n2 * 4).unwrap();
    dev.write(&src2, &ramp(n2, 100.0));
    let pipe = dev.rt.pipeline("copy_f32").unwrap();
    for (src, out, n) in [(&src1, &mid, n1), (&src2, &dst, n2)] {
        dev.rt
            .with_binder(|bnd| {
                bnd.set_pipeline(&pipe);
                bnd.bind_gpu_buf(src, 0);
                bnd.bind_gpu_buf(out, 1);
                bnd.bind_u32(n as u32, 2);
                bnd.dispatch(mtl_size(1, 1, 1), mtl_size(n, 1, 1));
                Ok(())
            })
            .unwrap();
    }
    dev.run();
    assert_eq!(dev.dispatches, 0, "a batch waits for its commit");
    dev.finish();
    assert_eq!(dev.dispatches, 2);
    for (i, v) in dev.read(&mid).iter().take(n1).enumerate() {
        assert_eq!(*v, (i + 1) as f32, "first copy mismatch at {i}");
    }
    for (i, v) in dev.read(&dst).iter().take(n2).enumerate() {
        assert_eq!(*v, 100.0 + i as f32, "second copy mismatch at {i}");
    }
    assert_eq!(dev.rt.const_cursor(), 0);
}

#[test]
fn metal4_arg_table_offset_and_multi_const() {
    let mut dev = Device::new();
    let n = 32usize;
    let pad = 16usize;
    let src = dev.rt.alloc_buffer((pad + n) * 4).expect("src");
    let dst = dev.rt.alloc_buffer(n * 4).expect("dst");
    let values: Vec<f32> = (0..pad + n)
        .map(|i| if i < pad { -1.0 } else { (i - pad + 1) as f32 })
        .collect();
    dev.write(&src, &values);
    dst.zero(&mut dev.rt).unwrap();
    let pipe = dev.rt.pipeline("copy_f32").expect("pipe");
    let tpt = pipe.thread_execution_width.min(n).max(1);
    let groups = n.div_ceil(tpt);
    dev.rt
        .with_binder(|bnd| {
            bnd.set_pipeline(&pipe);
            bnd.bind_buf(&src.at().slab, pad * 4, 0);
            bnd.bind_gpu_buf(&dst, 1);
            bnd.bind_u32(n as u32, 2);
            bnd.dispatch(mtl_size(groups, 1, 1), mtl_size(tpt, 1, 1));
            Ok(())
        })
        .expect("offset dispatch");
    dev.finish();
    for (i, v) in dev.read(&dst).into_iter().enumerate() {
        let expect = (i + 1) as f32;
        assert!(
            (v - expect).abs() == 0.0,
            "offset bind mismatch at {i}: got {v} want {expect}"
        );
    }
    // Several constants in one scope, with nothing dispatched.
    dev.rt.set_async_encode(true).unwrap();
    dev.rt
        .with_binder(|bnd| {
            bnd.set_pipeline(&pipe);
            bnd.bind_gpu_buf(&dst, 0);
            bnd.bind_gpu_buf(&dst, 1);
            bnd.bind_u32(1, 2);
            bnd.bind_u32(2, 3);
            bnd.bind_f32(3.5f32.to_bits(), 4);
            bnd.barrier();
            Ok(())
        })
        .unwrap();
    assert!(dev.rt.const_cursor() > 0, "const arena cursor should advance");
    dev.finish();
    assert_eq!(dev.rt.const_cursor(), 0);
}

// ------------------------------------------------------------- storage -----

#[test]
fn stress_mapping_reentry_and_queued_copies() {
    let mut dev = Device::new();
    dev.rt.set_async_encode(true).unwrap();
    let a = dev.tensor(&[257]);
    let b = dev.tensor(&[257]);
    let values: Vec<f32> = (0..257).map(|i| i as f32 / 16.0).collect();
    dev.write(&a.buffer, &values);
    for _ in 0..128 {
        gpu_copy(&mut dev.rt, &a, &b).unwrap();
        gpu_copy(&mut dev.rt, &b, &a).unwrap();
    }
    // Mapping itself completes all queued work, without an explicit wait.
    assert_eq!(dev.read(&b.buffer), values);
    let alias = dev.rt.share_buffer(&b.buffer);
    let map = b.buffer.try_contents_f32(&mut dev.rt, 0x10000).unwrap();
    assert!(alias.try_contents_u8(&mut dev.rt, 0x10000).is_err());
    assert!(dev.rt.commit(false).is_err());
    assert!(dev.rt.synchronize().is_err());
    dev.run();
    dev.put(b.buffer.at().slab.address, &[42.0]);
    dev.rt.unmap_host(map);
    assert_eq!(dev.read(&alias)[0], 42.0);
    dev.rt.with_binder(|_| Ok(())).unwrap();
    dev.finish();
}

#[test]
fn stress_retained_bump_views_and_pool_pressure() {
    let mut dev = Device::new();
    dev.rt.ensure_bump(256).unwrap();
    let mut retained = Vec::new();
    for i in 0..128 {
        let view = dev.rt.bump_alloc_f32(&[64]).unwrap();
        dev.write(&view.buffer, &[i as f32; 64]);
        retained.push(view);
        dev.rt.bump_reset();
        let pressure = dev.tensor(&[64]);
        dev.write(&pressure.buffer, &[-999.0; 64]);
        dev.drop_tensor(pressure);
    }
    assert!(dev.rt.ensure_bump(usize::MAX).is_err());
    for (i, view) in retained.iter().enumerate() {
        assert!(dev.read(&view.buffer).iter().all(|&x| x == i as f32));
    }
    for view in retained {
        dev.drop_tensor(view);
    }
    dev.finish();
    dev.rt.bump_reset();
    assert!(dev.rt.bump_alloc_f32(&[64]).is_ok());
}

#[test]
fn bump_growth_preserves_live_views() {
    let mut dev = Device::new();
    dev.rt.ensure_bump(256).unwrap();
    let view = dev.rt.bump_alloc_f32(&[64]).unwrap();
    dev.write(&view.buffer, &[7.0; 64]);
    dev.rt.ensure_bump(512).unwrap();
    let new = dev.tensor(&[64]);
    dev.write(&new.buffer, &[3.0; 64]);
    assert!(
        dev.read(&view.buffer).iter().all(|&x| x == 7.0),
        "live bump allocation recycled"
    );
}

#[test]
fn bump_reset_preserves_live_views() {
    let mut dev = Device::new();
    dev.rt.ensure_bump(256).unwrap();
    let a = dev.rt.bump_alloc_f32(&[64]).unwrap();
    dev.write(&a.buffer, &[7.0; 64]);
    dev.rt.bump_reset();
    let b = dev.rt.bump_alloc_f32(&[64]).unwrap();
    dev.write(&b.buffer, &[3.0; 64]);
    assert!(dev.read(&a.buffer).iter().all(|&x| x == 7.0));
    assert!(dev.read(&b.buffer).iter().all(|&x| x == 3.0));
}

#[test]
fn deep_copies_are_independent_and_casts_round_trip() {
    let mut dev = Device::new();
    let a = dev.tensor(&[8, 4]);
    dev.write(&a.buffer, &ramp(32, 1.0));
    let b = a.deep_copy(&mut dev.rt).unwrap();
    dev.finish();
    dev.write(&a.buffer, &[0.0; 32]);
    assert_eq!(dev.read(&b.buffer), ramp(32, 1.0));
    let narrow = cast_f32_to_bf16(&mut dev.rt, &b).unwrap();
    let wide = cast_bf16_to_f32(&mut dev.rt, &narrow).unwrap();
    assert_eq!(dev.read(&wide.buffer), ramp(32, 1.0));
}

// -------------------------------------------------------- recorded graphs --

#[test]
fn decode_icb_multi_copy_f32() {
    let mut dev = Device::new();
    let (mut dec, c) = DecodeIcb::mini_copy_chain(&mut dev.rt, 32).expect("mini copy chain");
    assert_eq!(dec.command_count(), 2);
    dec.execute(&mut dev.rt).unwrap();
    dev.finish();
    let n = 32usize;
    for (i, v) in dev.read(&c).iter().take(n).enumerate() {
        assert_eq!(*v, (i as f32) + 1.0, "mismatch at {i}");
    }
    // A second run, without encoding anew.
    dev.poke(&c, 0xFF);
    dec.execute(&mut dev.rt).unwrap();
    dev.finish();
    for (i, v) in dev.read(&c).iter().take(n).enumerate() {
        assert_eq!(*v, (i as f32) + 1.0, "second run at {i}");
    }
    assert_eq!(dec.execute_count(), 2);
    let (set_calls, bind_total) = dec.last_set_address_stats();
    let (set_tables, elided) = dec.last_prebuilt_stats();
    if dec.freeze_binds() {
        assert_eq!(set_calls, 0, "freeze: no address is set");
        assert_eq!(set_tables, 0, "freeze: no table is set");
        assert_eq!(elided, bind_total);
    } else if dec.prebuilt_table_count() == 2 {
        assert_eq!(set_calls, 0, "prebuilt: no address is set for buffers");
        assert_eq!(set_tables, 2, "one switch per distinct table");
        assert_eq!(elided, bind_total);
        assert_eq!(dec.unique_prebuilt_table_count(), 2);
    }
    assert!(dec.status_line().starts_with("decode_icb cmds=2 "));
}

#[test]
fn decode_icb_freeze_binds_zero_arg_table() {
    let mut dev = Device::new();
    let (mut dec, c) =
        DecodeIcb::mini_copy_chain_ex(&mut dev.rt, 32, true).expect("mini copy chain freeze");
    assert!(dec.freeze_binds(), "expected freeze_binds");
    assert_eq!(dec.prebuilt_table_count(), 0);
    dec.execute(&mut dev.rt).unwrap();
    dev.finish();
    let n = 32usize;
    for (i, v) in dev.read(&c).iter().take(n).enumerate() {
        assert_eq!(*v, (i as f32) + 1.0, "freeze mismatch at {i}");
    }
    let (set_tables, elided) = dec.last_prebuilt_stats();
    let (set_calls, bind_total) = dec.last_set_address_stats();
    assert_eq!(set_tables, 0, "freeze must switch no table");
    assert_eq!(set_calls, 0);
    assert_eq!(elided, bind_total);
}

fn bind(index: usize, buf: &GpuBuffer) -> DecodeIcbBind {
    DecodeIcbBind::Buf {
        index,
        buf: buf.at(),
        byte_offset: 0,
        gpu_addr: buf_gpu_addr(&buf.at(), 0),
    }
}

fn copy_command(
    pipe: &Pipeline,
    n: usize,
    src: &GpuBuffer,
    dst: &GpuBuffer,
    count: &GpuBuffer,
    barrier_after: bool,
) -> DecodeIcbCommand {
    let tpt = pipe.thread_execution_width.min(n).max(1);
    DecodeIcbCommand {
        pipeline: *pipe,
        threadgroups: mtl_size(n.div_ceil(tpt), 1, 1),
        threads_per_tg: mtl_size(tpt, 1, 1),
        binds: vec![bind(0, src), bind(1, dst), bind(2, count)],
        tg_mem: None,
        owned_immediates: Vec::new(),
        barrier_after,
    }
}

#[test]
fn decode_icb_range_batch_merges_safe_spans() {
    let mut dev = Device::new();
    let n = 32usize;
    let src = dev.rt.alloc_buffer_hot(n * 4).unwrap();
    let a = dev.rt.alloc_buffer_hot(n * 4).unwrap();
    let b = dev.rt.alloc_buffer_hot(n * 4).unwrap();
    let c = dev.rt.alloc_buffer_hot(n * 4).unwrap();
    let n_buf = dev.rt.alloc_buffer_hot(4).unwrap();
    n_buf.write_u32(&mut dev.rt, &[n as u32]).unwrap();
    dev.write(&src, &ramp(n, 1.0));
    for dst in [&a, &b, &c] {
        dst.zero(&mut dev.rt).unwrap();
    }
    let pipe = pipeline_icb(&mut dev.rt, "copy_f32").expect("copy_f32 icb");
    let commands = || {
        vec![
            copy_command(&pipe, n, &src, &a, &n_buf, false),
            copy_command(&pipe, n, &src, &b, &n_buf, false),
            copy_command(&pipe, n, &src, &c, &n_buf, true),
        ]
    };

    set_icb_range_batch(dev.rt.icb_flags(), false);
    let mut dec_n = DecodeIcb::from_commands_ex(&mut dev.rt, commands(), true).unwrap();
    dec_n.execute(&mut dev.rt).unwrap();
    dev.finish();
    let (calls_n, covered_n) = dec_n.last_execute_icb_stats();
    assert_eq!(calls_n, 3, "one execution per command");
    assert_eq!(covered_n, 3);

    set_icb_range_batch(dev.rt.icb_flags(), true);
    let mut dec_b = DecodeIcb::from_commands_ex(&mut dev.rt, commands(), true).unwrap();
    dec_b.execute(&mut dev.rt).unwrap();
    dev.finish();
    let (calls_b, covered_b) = dec_b.last_execute_icb_stats();
    assert_eq!(calls_b, 1, "one execution for the whole span");
    assert_eq!(covered_b, 3);
    assert_eq!(dec_b.last_prebuilt_stats().0, 0, "still no table switch");
    for (label, buf) in [("a", &a), ("b", &b), ("c", &c)] {
        for (i, v) in dev.read(buf).iter().take(n).enumerate() {
            assert_eq!(*v, (i as f32) + 1.0, "{label} mismatch at {i}");
        }
    }
}

#[test]
fn decode_icb_coarse_ranges_elides_disjoint_keeps_raw() {
    let mut dev = Device::new();
    let n = 32usize;
    let a = dev.rt.alloc_buffer_hot(n * 4).unwrap();
    let b = dev.rt.alloc_buffer_hot(n * 4).unwrap();
    let c = dev.rt.alloc_buffer_hot(n * 4).unwrap();
    let d = dev.rt.alloc_buffer_hot(n * 4).unwrap();
    let e = dev.rt.alloc_buffer_hot(n * 4).unwrap();
    let n_ab = dev.rt.alloc_buffer_hot(4).unwrap();
    let n_cd = dev.rt.alloc_buffer_hot(4).unwrap();
    let n_be = dev.rt.alloc_buffer_hot(4).unwrap();
    for count in [&n_ab, &n_cd, &n_be] {
        count.write_u32(&mut dev.rt, &[n as u32]).unwrap();
    }
    dev.write(&a, &ramp(n, 1.0));
    dev.write(&c, &ramp(n, 10.0));
    for dst in [&b, &d, &e] {
        dst.zero(&mut dev.rt).unwrap();
    }
    let pipe = pipeline_icb(&mut dev.rt, "copy_f32").expect("copy_f32 icb");
    // a to b, c to d, b to e, each with a barrier: the first is needless.
    let commands = || {
        vec![
            copy_command(&pipe, n, &a, &b, &n_ab, true),
            copy_command(&pipe, n, &c, &d, &n_cd, true),
            copy_command(&pipe, n, &b, &e, &n_be, true),
        ]
    };
    let mut probe = commands();
    let elided = DecodeIcb::elide_non_interfering_barriers(&mut probe);
    assert_eq!(elided, 1, "disjoint copies should lose one barrier");
    assert!(!probe[0].barrier_after, "first barrier elided");
    assert!(probe[1].barrier_after, "the barrier before the reader kept");
    assert!(probe[2].barrier_after);

    set_icb_range_batch(dev.rt.icb_flags(), true);
    set_icb_coarse_ranges(dev.rt.icb_flags(), true);
    let mut dec = DecodeIcb::from_commands_ex(&mut dev.rt, commands(), true).unwrap();
    dec.execute(&mut dev.rt).unwrap();
    dev.finish();
    let (calls, covered) = dec.last_execute_icb_stats();
    assert_eq!(calls, 2, "two spans, two executions, got {calls}");
    assert_eq!(covered, 3);
    assert_eq!(dec.barriers_elided(), 1);
    let (out_b, out_d, out_e) = (dev.read(&b), dev.read(&d), dev.read(&e));
    for i in 0..n {
        assert_eq!(out_b[i], (i as f32) + 1.0, "b mismatch");
        assert_eq!(out_d[i], (i as f32) + 10.0, "d mismatch");
        assert_eq!(out_e[i], (i as f32) + 1.0, "e mismatch (through b)");
    }
}

#[test]
fn constant_bytes_keep_what_ran_before_them_in_sight() {
    let mut dev = Device::new();
    let n = 32usize;
    let buffers: Vec<GpuBuffer> =
        (0..5).map(|_| dev.rt.alloc_buffer_hot(n * 4).unwrap()).collect();
    let [p, p2, q, q2, r] = &buffers[..] else { unreachable!() };
    let count = dev.rt.alloc_buffer_hot(4).unwrap();
    let pipe = pipeline_icb(&mut dev.rt, "copy_f32").expect("copy_f32 icb");
    let tape = |barrier_after: bool, last: &GpuBuffer| {
        let mut constant = copy_command(&pipe, n, q, q2, &count, barrier_after);
        constant.binds = vec![DecodeIcbBind::Immediate { index: 0, bytes: vec![1, 2, 3, 4] }];
        vec![
            copy_command(&pipe, n, p, p2, &count, false),
            constant,
            copy_command(&pipe, n, q, q2, &count, true),
            copy_command(&pipe, n, last, r, &count, true),
        ]
    };
    // The last command reads what the first wrote, and nothing fenced it yet.
    let mut unfenced = tape(false, p2);
    assert_eq!(DecodeIcb::elide_non_interfering_barriers(&mut unfenced), 0);
    assert!(unfenced[2].barrier_after);
    // The barrier of the constant command fences it.
    let mut fenced = tape(true, p2);
    assert_eq!(DecodeIcb::elide_non_interfering_barriers(&mut fenced), 1);
    assert!(fenced[1].barrier_after && !fenced[2].barrier_after);
    // Nor is a barrier needed where the last command reads neither.
    let mut apart = tape(false, r);
    assert_eq!(DecodeIcb::elide_non_interfering_barriers(&mut apart), 1);
    assert!(!apart[2].barrier_after && apart[3].barrier_after);
}

#[test]
fn decode_icb_mini_replay() {
    let mut dev = Device::new();
    set_decode_icb(dev.rt.icb_flags(), true);
    let (dicb, out) = DecodeIcb::mini_copy_chain(&mut dev.rt, 32).expect("mini graph");
    let mut pp = PingPongCbReplay::new();
    assert!(pp.attach_decode_icb(dicb).is_none());
    pp.mark_live_step("capture0").unwrap();
    assert_eq!(pp.slot(CbSlot::A).phase, CbReplayPhase::Ready);
    pp.try_replay_icb(CbSlot::A, &mut dev.rt).expect("try_replay_icb");
    dev.finish();
    assert_eq!(pp.icb_replays(), 1);
    assert_eq!(pp.icb_stub().phase, IcbStubPhase::Allocated);
    let n = 32usize;
    for (i, v) in dev.read(&out).iter().take(n).enumerate() {
        assert_eq!(*v, (i as f32) + 1.0, "mismatch at {i}");
    }
    // Second replay without encoding anew.
    pp.on_gpu_complete(CbSlot::A);
    pp.begin_record(CbSlot::A, "again").unwrap();
    pp.finish_record(CbSlot::A).unwrap();
    dev.poke(&out, 0xFF);
    pp.try_replay_icb(CbSlot::A, &mut dev.rt)
        .expect("second try_replay_icb");
    dev.finish();
    for (i, v) in dev.read(&out).iter().take(n).enumerate() {
        assert_eq!(*v, (i as f32) + 1.0, "second mismatch at {i}");
    }
    assert_eq!(pp.icb_replays(), 2);
}

// ---------------------------------------------------------------- GEMM -----

type Launch = fn(&mut GpuRuntime, &Tensor, &Tensor, &Tensor, GemmBackend) -> Result<(), String>;

const LAUNCHES: &[Launch] = &[
    gemm,
    gemm_train,
    gemm_tn_f32,
    gemm_nt_f32,
    gemm_tn_train,
    gemm_nt_train,
    gemm_tn_accum_train,
    gemm_nt_accum_train,
];

fn gemm_f32_cpu(a: &[f32], b: &[f32], m: usize, n: usize, k: usize) -> Vec<f32> {
    let mut c = vec![0.0f32; m * n];
    for i in 0..m {
        let row = &mut c[i * n..(i + 1) * n];
        for p in 0..k {
            let x = a[i * k + p];
            for (y, z) in row.iter_mut().zip(&b[p * n..(p + 1) * n]) {
                *y += x * z;
            }
        }
    }
    c
}

fn transposed(src: &[f32], rows: usize, cols: usize) -> Vec<f32> {
    let mut out = vec![0.0f32; rows * cols];
    for r in 0..rows {
        for c in 0..cols {
            out[c * rows + r] = src[r * cols + c];
        }
    }
    out
}

fn gemm_tn_cpu(a_km: &[f32], b_kn: &[f32], m: usize, n: usize, k: usize) -> Vec<f32> {
    gemm_f32_cpu(&transposed(a_km, k, m), b_kn, m, n, k)
}

fn gemm_nt_cpu(a_mk: &[f32], b_nk: &[f32], m: usize, n: usize, k: usize) -> Vec<f32> {
    gemm_f32_cpu(a_mk, &transposed(b_nk, n, k), m, n, k)
}

fn max_abs_err(got: &[f32], exp: &[f32]) -> f32 {
    assert_eq!(got.len(), exp.len(), "parity length mismatch");
    assert!(
        got.iter().chain(exp).all(|x| x.is_finite()),
        "nonfinite parity input"
    );
    got.iter()
        .zip(exp.iter())
        .map(|(g, e)| (g - e).abs())
        .fold(0.0f32, f32::max)
}

/// `(i mod period) * step + base` for every element.
fn saw(count: usize, period: usize, step: f32, base: f32) -> Vec<f32> {
    (0..count).map(|i| ((i % period) as f32) * step + base).collect()
}

fn round_bf16(v: &[f32]) -> Vec<f32> {
    v.iter()
        .map(|x| f32::from_bits(bf16_bits_to_f32(f32_to_bf16_bits(x.to_bits()))))
        .collect()
}

fn tensorops_device() -> Device {
    let dev = Device::new();
    assert!(dev.rt.has_tensorops());
    dev
}

/// Two f32 operands and an f32 output of the given shapes, the operands filled.
fn operands(
    dev: &mut Device,
    a_shape: &[usize],
    a_host: &[f32],
    b_shape: &[usize],
    b_host: &[f32],
    c_shape: &[usize],
) -> (Tensor, Tensor, Tensor) {
    let a = dev.tensor(a_shape);
    let b = dev.tensor(b_shape);
    let c = dev.tensor(c_shape);
    dev.write(&a.buffer, a_host);
    dev.write(&b.buffer, b_host);
    (a, b, c)
}

fn run_case(m: usize, n: usize, k: usize, backend: GemmBackend) {
    let mut dev = Device::new();
    let a_host = saw(m * k, 17, 0.1, -0.8);
    let b_host = saw(k * n, 13, 0.07, -0.4);
    let expected = gemm_f32_cpu(&a_host, &b_host, m, n, k);
    let (a, b, c) = operands(&mut dev, &[m, k], &a_host, &[k, n], &b_host, &[m, n]);
    gemm_f32(&mut dev.rt, &a, &b, &c, backend).unwrap();
    dev.finish();
    let err = max_abs_err(&dev.read(&c.buffer), &expected);
    assert!(
        err < 1e-4,
        "GEMM {m}x{k}@{k}x{n} backend={backend:?} max_abs_err={err}"
    );
}

#[test]
fn gemm_simdgroup_16() {
    run_case(16, 16, 16, GemmBackend::Simdgroup);
}

#[test]
fn gemm_simdgroup_32() {
    run_case(32, 32, 32, GemmBackend::Simdgroup);
}

#[test]
fn gemm_auto_small() {
    let dev = Device::new();
    let backend = select_backend(&dev.rt);
    let dim = if backend == GemmBackend::TensorOps { 32 } else { 16 };
    run_case(dim, dim, dim, backend);
}

#[test]
fn gemm_tensorops_32() {
    tensorops_device();
    run_case(32, 32, 64, GemmBackend::TensorOps);
    run_case(64, 32, 32, GemmBackend::TensorOps);
}

#[test]
fn gemm_bf16_tensorops() {
    let mut dev = tensorops_device();
    dev.rt.set_precision(PrecisionMode::Bf16);
    let (m, n, k) = (32usize, 32usize, 64usize);
    let a_f = saw(m * k, 17, 0.1, -0.8);
    let b_f = saw(k * n, 13, 0.07, -0.4);
    let expected = gemm_f32_cpu(&a_f, &b_f, m, n, k);
    let a = dev.tensor_bf16(&[m, k]);
    let b = dev.tensor_bf16(&[k, n]);
    let c = dev.tensor(&[m, n]);
    dev.write_bf16(&a.buffer, &a_f);
    dev.write_bf16(&b.buffer, &b_f);
    gemm(&mut dev.rt, &a, &b, &c, GemmBackend::TensorOps).unwrap();
    dev.finish();
    let err = max_abs_err(&dev.read(&c.buffer), &expected);
    assert!(err < 2e-2, "bf16 GEMM max_abs_err={err}");
}

#[test]
fn gemm_train_bf16_casts_f32_operands() {
    let mut dev = tensorops_device();
    dev.rt.set_precision(PrecisionMode::Bf16);
    let (m, n, k) = (32usize, 32usize, 64usize);
    let a_f = saw(m * k, 17, 0.1, -0.8);
    let b_f = saw(k * n, 13, 0.07, -0.4);
    let expected = gemm_f32_cpu(&a_f, &b_f, m, n, k);
    let (a, b, c) = operands(&mut dev, &[m, k], &a_f, &[k, n], &b_f, &[m, n]);
    gemm_train(&mut dev.rt, &a, &b, &c, GemmBackend::TensorOps).unwrap();
    dev.finish();
    assert_eq!(dev.dispatches, 3, "two casts and one multiplication");
    let err = max_abs_err(&dev.read(&c.buffer), &expected);
    assert!(err < 2e-2, "gemm_train bf16 max_abs_err={err}");
}

#[test]
fn gemm_relaxed_precision_numerics() {
    let mut dev = tensorops_device();
    dev.rt.pipeline("matmul2d_tensorops_f32_relaxed").unwrap();
    let (m, n, k) = (64usize, 64usize, 128usize);
    let a_f = saw(m * k, 17, 0.1, -0.8);
    let b_f = saw(k * n, 13, 0.07, -0.4);
    let expected = gemm_f32_cpu(&a_f, &b_f, m, n, k);
    let (a, b, c_exact) = operands(&mut dev, &[m, k], &a_f, &[k, n], &b_f, &[m, n]);
    let c_relax = dev.tensor(&[m, n]);
    dev.rt.set_precision(PrecisionMode::F32);
    dev.rt.set_relaxed_precision(false);
    gemm_f32(&mut dev.rt, &a, &b, &c_exact, GemmBackend::TensorOps).unwrap();
    dev.rt.set_relaxed_precision(true);
    gemm_f32(&mut dev.rt, &a, &b, &c_relax, GemmBackend::TensorOps).unwrap();
    dev.finish();
    assert_eq!(dev.dispatches, 3, "exact: zero, multiply; relaxed: multiply");
    let err_exact = max_abs_err(&dev.read(&c_exact.buffer), &expected);
    let err_relax = max_abs_err(&dev.read(&c_relax.buffer), &expected);
    assert!(err_exact < 1e-4, "exact f32 GEMM drifted: {err_exact}");
    assert!(err_relax < 5e-2, "relaxed GEMM too far off: {err_relax}");
}

#[test]
fn gemm_train_bf16_awkward_k() {
    let mut dev = tensorops_device();
    dev.rt.set_precision(PrecisionMode::Bf16);
    for (m, n, k) in [(64usize, 128usize, 48usize), (64, 128, 24), (4096, 128, 48)] {
        let a_f = saw(m * k, 17, 0.01, -0.08);
        let b_f = saw(k * n, 13, 0.007, -0.04);
        let expected = gemm_f32_cpu(&a_f, &b_f, m, n, k);
        let (a, b, c) = operands(&mut dev, &[m, k], &a_f, &[k, n], &b_f, &[m, n]);
        gemm_train(&mut dev.rt, &a, &b, &c, GemmBackend::TensorOps).unwrap();
        dev.finish();
        let got = dev.read(&c.buffer);
        let n_bad = got.iter().filter(|x| !x.is_finite()).count();
        let err = max_abs_err(&got, &expected);
        assert_eq!(n_bad, 0, "NaN/Inf in bf16 GEMM {m}x{k}@{k}x{n}");
        assert!(err < 5e-2, "bf16 awkward K err={err}");
    }
}

#[test]
fn gemm_tn_nt_bf16_train_smoke() {
    let mut dev = tensorops_device();
    dev.rt.pipeline("matmul2d_tensorops_tn_bf16_f32").unwrap();
    dev.rt.set_precision(PrecisionMode::Bf16);
    let (m, n, k) = (32usize, 32usize, 64usize);
    let a_km = saw(k * m, 11, 0.05, -0.2);
    let b_kn = saw(k * n, 7, 0.04, -0.1);
    let a_mk = transposed(&a_km, k, m);
    let exp_tn = gemm_f32_cpu(&a_mk, &b_kn, m, n, k);
    let (a_t, b_t, c_tn) = operands(&mut dev, &[k, m], &a_km, &[k, n], &b_kn, &[m, n]);
    gemm_tn_train(&mut dev.rt, &a_t, &b_t, &c_tn, GemmBackend::TensorOps).unwrap();

    let b_nk = transposed(&b_kn, k, n);
    let exp_nt = gemm_nt_cpu(&a_mk, &b_nk, m, n, k);
    let (a_n, b_n, c_nt) = operands(&mut dev, &[m, k], &a_mk, &[n, k], &b_nk, &[m, n]);
    gemm_nt_train(&mut dev.rt, &a_n, &b_n, &c_nt, GemmBackend::TensorOps).unwrap();
    dev.finish();
    let err_tn = max_abs_err(&dev.read(&c_tn.buffer), &exp_tn);
    let err_nt = max_abs_err(&dev.read(&c_nt.buffer), &exp_nt);
    assert!(err_tn < 2e-2, "tn bf16 err={err_tn}");
    assert!(err_nt < 2e-2, "nt bf16 err={err_nt}");
}

#[test]
fn gemm_tn_nt_tensorops_descriptors() {
    let mut dev = tensorops_device();
    for (m, n, k) in [(32usize, 32, 64), (64, 128, 128), (128, 128, 256)] {
        let a_km = saw(k * m, 11, 0.05, -0.2);
        let b_kn = saw(k * n, 7, 0.04, -0.1);
        let exp = gemm_tn_cpu(&a_km, &b_kn, m, n, k);
        let (a, b, c) = operands(&mut dev, &[k, m], &a_km, &[k, n], &b_kn, &[m, n]);
        gemm_tn_f32(&mut dev.rt, &a, &b, &c, GemmBackend::TensorOps).unwrap();
        dev.finish();
        let err = max_abs_err(&dev.read(&c.buffer), &exp);
        assert!(err < 1e-4, "TN {m}x{k}^T@{k}x{n} err={err}");

        let a_mk = saw(m * k, 13, 0.03, -0.15);
        let b_nk = saw(n * k, 17, 0.02, -0.1);
        let exp_nt = gemm_nt_cpu(&a_mk, &b_nk, m, n, k);
        let (a2, b2, c2) = operands(&mut dev, &[m, k], &a_mk, &[n, k], &b_nk, &[m, n]);
        gemm_nt_f32(&mut dev.rt, &a2, &b2, &c2, GemmBackend::TensorOps).unwrap();
        dev.finish();
        let err_nt = max_abs_err(&dev.read(&c2.buffer), &exp_nt);
        assert!(err_nt < 1e-4, "NT {m}x{k}@{n}x{k}^T err={err_nt}");
    }
}

fn tall_case(m: usize, n: usize, k: usize) {
    let mut dev = tensorops_device();
    assert!(prefer_tn_splitk(m, n, k));
    let a_km = saw(k * m, 19, 0.01, -0.08);
    let b_kn = saw(k * n, 23, 0.008, -0.05);
    let exp = gemm_tn_cpu(&a_km, &b_kn, m, n, k);
    let (a, b, c) = operands(&mut dev, &[k, m], &a_km, &[k, n], &b_kn, &[m, n]);
    gemm_tn_f32(&mut dev.rt, &a, &b, &c, GemmBackend::TensorOps).unwrap();
    dev.finish();
    assert_eq!(dev.dispatches, 1 + k.div_ceil(256), "zero, then one per part");
    let err = max_abs_err(&dev.read(&c.buffer), &exp);
    assert!(err < 1e-3, "split {m}x{n}x{k} err={err}");
}

#[test]
fn gemm_tn_splitk_tall_dw_shape() {
    tall_case(128, 128, 4096);
}

#[test]
fn gemm_tn_splitk_mlp_dw_shape() {
    tall_case(128, 384, 4096);
}

#[test]
fn disjoint_bank_views_work_and_overlap_is_rejected() {
    let mut dev = Device::new();
    let bank = dev.tensor(&[3 * 256]);
    dev.write(&bank.buffer, &vec![1.0; 3 * 256]);
    let a = bank.view(&mut dev.rt, &[16, 16], 0);
    let b = bank.view(&mut dev.rt, &[16, 16], 256);
    let c = bank.view(&mut dev.rt, &[16, 16], 512);
    for launch in LAUNCHES {
        let overlap = bank.view(&mut dev.rt, &[16, 16], 128);
        assert!(launch(&mut dev.rt, &a, &b, &overlap, GemmBackend::TensorOps).is_err());
    }
    dev.rt.take_dispatch_count();
    gemm(&mut dev.rt, &a, &b, &c, GemmBackend::Simdgroup).unwrap();
    dev.finish();
    assert_eq!(dev.rt.take_dispatch_count(), 1, "simdgroup must not zero C first");
    let got = dev.read(&bank.buffer);
    assert!(got[..512].iter().all(|&x| x == 1.0));
    assert!(got[512..].iter().all(|&x| x == 16.0));
}

#[test]
fn transpose_edges_precision_and_accumulation() {
    let mut dev = tensorops_device();
    for (m, n, k) in [(1, 3, 1), (17, 31, 9), (33, 65, 129), (17, 31, 2049)] {
        for backend in [GemmBackend::Simdgroup, GemmBackend::TensorOps] {
            for precision in [PrecisionMode::F32, PrecisionMode::Bf16] {
                dev.rt.set_precision(precision);
                for (tn, accum) in [(true, false), (false, false), (true, true), (false, true)] {
                    let ashape = if tn { [k, m] } else { [m, k] };
                    let bshape = if tn { [k, n] } else { [n, k] };
                    let av: Vec<f32> = (0..m * k).map(|i| (i % 13) as f32 / 16.0 - 0.25).collect();
                    let bv: Vec<f32> = (0..n * k).map(|i| (i % 7) as f32 / 16.0 - 0.125).collect();
                    let (a, b, bank) =
                        operands(&mut dev, &ashape, &av, &bshape, &bv, &[m * n + 8]);
                    dev.write(&bank.buffer, &vec![2.0; m * n + 8]);
                    let c = bank.view(&mut dev.rt, &[m, n], 4);
                    let launch: Launch = match (tn, accum) {
                        (true, false) => gemm_tn_train,
                        (false, false) => gemm_nt_train,
                        (true, true) => gemm_tn_accum_train,
                        (false, true) => gemm_nt_accum_train,
                    };
                    launch(&mut dev.rt, &a, &b, &c, backend).unwrap();
                    dev.finish();
                    let got = dev.read(&bank.buffer);
                    assert_eq!(&got[..4], &[2.0; 4]);
                    assert_eq!(&got[m * n + 4..], &[2.0; 4]);
                    for row in 0..m {
                        for col in 0..n {
                            let mut expected = if accum { 2.0 } else { 0.0 };
                            for p in 0..k {
                                expected += av[if tn { p * m + row } else { row * k + p }]
                                    * bv[if tn { p * n + col } else { col * k + p }];
                            }
                            let x = got[4 + row * n + col];
                            assert!(
                                x.is_finite() && (x - expected).abs() < 1e-4,
                                "{m}x{n}x{k} {backend:?} {precision:?} TN={tn} accum={accum}: {x} vs {expected}"
                            );
                        }
                    }
                }
            }
        }
    }
}

#[test]
fn simdgroup_edges_and_offset_guards() {
    let mut dev = Device::new();
    for (m, n, k) in [(1, 1, 1), (7, 9, 3), (16, 16, 16), (17, 31, 9), (33, 65, 129)] {
        let av: Vec<f32> = (0..m * k).map(|i| (i % 13) as f32 / 16.0 - 0.25).collect();
        let bv: Vec<f32> = (0..k * n).map(|i| (i % 7) as f32 / 16.0 - 0.125).collect();
        let (a, b, bank) = operands(&mut dev, &[m, k], &av, &[k, n], &bv, &[m * n + 8]);
        let mut poisoned = vec![f32::NAN; m * n + 8];
        poisoned[..4].fill(123.0);
        poisoned[m * n + 4..].fill(123.0);
        dev.write(&bank.buffer, &poisoned);
        let c = bank.view(&mut dev.rt, &[m, n], 4);
        gemm(&mut dev.rt, &a, &b, &c, GemmBackend::Simdgroup).unwrap();
        dev.finish();
        let got = dev.read(&bank.buffer);
        assert_eq!(&got[..4], &[123.0; 4]);
        assert_eq!(&got[m * n + 4..], &[123.0; 4]);
        let expected = gemm_f32_cpu(&av, &bv, m, n, k);
        for (x, y) in got[4..m * n + 4].iter().zip(expected) {
            assert!(
                x.is_finite() && (x - y).abs() < 1e-4,
                "{m}x{n}x{k}: {x} vs {y}"
            );
        }
    }
}

// -------------------------------------------------------------- stress -----

/// xorshift64*.
struct Rng(u64);

impl Rng {
    fn new(seed: u64) -> Self {
        Rng(seed.max(1))
    }
    fn next(&mut self) -> u64 {
        let mut x = self.0;
        x ^= x >> 12;
        x ^= x << 25;
        x ^= x >> 27;
        self.0 = x;
        x.wrapping_mul(0x2545F4914F6CDD1D)
    }
    fn below(&mut self, n: usize) -> usize {
        (self.next() % n as u64) as usize
    }
    /// Uniform in [-0.5, 0.5).
    fn unit(&mut self) -> f32 {
        (self.next() >> 40) as f32 / (1u64 << 24) as f32 - 0.5
    }
}

const EDGE_DIMS: &[usize] = &[
    1, 2, 3, 7, 15, 16, 17, 31, 32, 33, 63, 64, 65, 95, 96, 127, 128, 129, 191, 192, 193,
];
const EDGE_KS: &[usize] = &[
    1, 3, 16, 31, 63, 96, 127, 128, 129, 255, 256, 257, 383, 511, 2047, 2048, 2049,
];

fn sample_dim(rng: &mut Rng) -> usize {
    if rng.below(2) == 0 {
        EDGE_DIMS[rng.below(EDGE_DIMS.len())]
    } else {
        1 + rng.below(160)
    }
}

fn sample_k(rng: &mut Rng) -> usize {
    if rng.below(2) == 0 {
        EDGE_KS[rng.below(EDGE_KS.len())]
    } else {
        1 + rng.below(320)
    }
}

#[derive(Clone, Copy, Debug)]
enum Family {
    Nn,
    NnRawBf16,
    Tn,
    Nt,
    TnAccum,
    NtAccum,
    NnSimdgroup,
}

const FAMILIES: &[Family] = &[
    Family::Nn,
    Family::NnRawBf16,
    Family::Tn,
    Family::Nt,
    Family::TnAccum,
    Family::NtAccum,
    Family::NnSimdgroup,
];

/// A fresh tensor with the data, sometimes as a view into a larger bank.
fn upload(dev: &mut Device, rng: &mut Rng, shape: &[usize], data: &[f32], bf16: bool) -> Tensor {
    let numel: usize = shape.iter().product();
    let off = if rng.below(3) == 0 { 8 } else { 0 };
    let mut host = vec![0.0f32; numel + off];
    host[off..].copy_from_slice(data);
    let bank = if bf16 {
        let bank = dev.tensor_bf16(&[numel + off]);
        dev.write_bf16(&bank.buffer, &host);
        bank
    } else {
        let bank = dev.tensor(&[numel + off]);
        dev.write(&bank.buffer, &host);
        bank
    };
    bank.view(&mut dev.rt, shape, off)
}

fn fuzz_case(dev: &mut Device, rng: &mut Rng, family: Family, seed_note: u64) {
    let m = sample_dim(rng);
    let n = sample_dim(rng);
    let mut k = sample_k(rng);
    if m * n * k > 24_000_000 {
        k = (24_000_000 / (m * n)).max(1);
    }
    let bf16 = match family {
        Family::NnRawBf16 => true,
        Family::NnSimdgroup => false,
        _ => rng.below(2) == 0,
    };
    dev.rt.set_precision(if bf16 {
        PrecisionMode::Bf16
    } else {
        PrecisionMode::F32
    });
    let a_host: Vec<f32> = (0..m * k).map(|_| rng.unit()).collect();
    let b_host: Vec<f32> = (0..n * k).map(|_| rng.unit()).collect();
    let (a_ref, b_ref) = if bf16 {
        (round_bf16(&a_host), round_bf16(&b_host))
    } else {
        (a_host.clone(), b_host.clone())
    };
    let accum = matches!(family, Family::TnAccum | Family::NtAccum);
    let prefill = if accum { 0.25f32 } else { 0.0 };
    let tn = matches!(family, Family::Tn | Family::TnAccum);
    let nt = matches!(family, Family::Nt | Family::NtAccum);
    let (a_shape, a_data) = if tn {
        ([k, m], transposed(&a_host, m, k))
    } else {
        ([m, k], a_host.clone())
    };
    let (b_shape, b_data) = if nt {
        ([n, k], transposed(&b_host, k, n))
    } else {
        ([k, n], b_host.clone())
    };
    let raw_bf16 = matches!(family, Family::NnRawBf16);
    let a = upload(dev, rng, &a_shape, &a_data, raw_bf16);
    let b = upload(dev, rng, &b_shape, &b_data, raw_bf16);
    let bank = dev.tensor(&[m * n + 8]);
    let mut poisoned = vec![f32::NAN; m * n + 8];
    poisoned[..4].fill(777.0);
    poisoned[m * n + 4..].fill(777.0);
    if accum {
        poisoned[4..m * n + 4].fill(prefill);
    }
    dev.write(&bank.buffer, &poisoned);
    let c = bank.view(&mut dev.rt, &[m, n], 4);
    let (launch, backend): (Launch, GemmBackend) = match family {
        Family::Nn => (gemm_train, GemmBackend::TensorOps),
        Family::NnRawBf16 => (gemm, GemmBackend::TensorOps),
        Family::NnSimdgroup => (gemm, GemmBackend::Simdgroup),
        Family::Tn => (gemm_tn_train, GemmBackend::TensorOps),
        Family::Nt => (gemm_nt_train, GemmBackend::TensorOps),
        Family::TnAccum => (gemm_tn_accum_train, GemmBackend::TensorOps),
        Family::NtAccum => (gemm_nt_accum_train, GemmBackend::TensorOps),
    };
    launch(&mut dev.rt, &a, &b, &c, backend).unwrap();
    dev.finish();
    let got = dev.read(&bank.buffer);
    assert!(
        got[..4] == [777.0; 4] && got[m * n + 4..] == [777.0; 4],
        "guard zone clobbered: {family:?} {m}x{n}x{k} seed={seed_note}"
    );
    let expected = gemm_f32_cpu(&a_ref, &b_ref, m, n, k);
    let atol = if bf16 { 2e-3f32 } else { 1e-4 + 1e-7 * k as f32 };
    for (i, (&x, &e)) in got[4..m * n + 4].iter().zip(expected.iter()).enumerate() {
        let want = e + prefill;
        assert!(
            x.is_finite() && (x - want).abs() < atol,
            "{family:?} {m}x{n}x{k} bf16={bf16} seed={seed_note} idx={i}: got {x} want {want} (atol {atol})"
        );
    }
    for t in [a, b, bank] {
        dev.drop_tensor(t);
    }
}

#[test]
fn gemm_fuzz_quick() {
    let seed = 0x5EED_2026_0830u64;
    let mut dev = tensorops_device();
    let mut rng = Rng::new(seed);
    for _ in 0..160 {
        let family = FAMILIES[rng.below(FAMILIES.len())];
        fuzz_case(&mut dev, &mut rng, family, seed);
    }
    dev.rt.set_precision(PrecisionMode::F32);
}

#[test]
fn gemm_bf16_nn_ragged_mn() {
    let mut dev = tensorops_device();
    for (m, n, k) in [
        (65usize, 33usize, 128usize),
        (63, 31, 129),
        (1, 1, 130),
        (130, 70, 260),
        (127, 95, 2049),
    ] {
        let a_f: Vec<f32> = (0..m * k).map(|i| ((i % 251) as f32) / 256.0 - 0.49).collect();
        let b_f: Vec<f32> = (0..k * n).map(|i| ((i % 241) as f32) / 256.0 - 0.47).collect();
        let expected = gemm_f32_cpu(&round_bf16(&a_f), &round_bf16(&b_f), m, n, k);
        let a = dev.tensor_bf16(&[m, k]);
        let b = dev.tensor_bf16(&[k, n]);
        let c = dev.tensor(&[m, n]);
        dev.write_bf16(&a.buffer, &a_f);
        dev.write_bf16(&b.buffer, &b_f);
        gemm(&mut dev.rt, &a, &b, &c, GemmBackend::TensorOps).unwrap();
        dev.finish();
        for (i, (&x, &e)) in dev.read(&c.buffer).iter().zip(expected.iter()).enumerate() {
            assert!(
                x.is_finite() && (x - e).abs() < 2e-3,
                "bf16 ragged NN {m}x{n}x{k} idx={i}: {x} vs {e}"
            );
        }
    }
}

#[test]
fn gemm_large_sampled_parity() {
    let mut dev = tensorops_device();
    let mut rng = Rng::new(0x1A26_E5A3u64);
    for (m, n, k, bf16) in [
        (1024usize, 1024usize, 1024usize, false),
        (1024, 1024, 1024, true),
        (1000, 520, 1030, true),
    ] {
        dev.rt.set_precision(if bf16 {
            PrecisionMode::Bf16
        } else {
            PrecisionMode::F32
        });
        let a_host: Vec<f32> = (0..m * k).map(|_| rng.unit()).collect();
        let b_host: Vec<f32> = (0..k * n).map(|_| rng.unit()).collect();
        let (a_ref, b_ref) = if bf16 {
            (round_bf16(&a_host), round_bf16(&b_host))
        } else {
            (a_host.clone(), b_host.clone())
        };
        let a = upload(&mut dev, &mut rng, &[m, k], &a_host, bf16);
        let b = upload(&mut dev, &mut rng, &[k, n], &b_host, bf16);
        let c = dev.tensor(&[m, n]);
        let launch: Launch = if bf16 { gemm } else { gemm_train };
        launch(&mut dev.rt, &a, &b, &c, GemmBackend::TensorOps).unwrap();
        dev.finish();
        let got = dev.read(&c.buffer);
        let n_bad = got.iter().filter(|x| !x.is_finite()).count();
        assert_eq!(n_bad, 0, "nonfinite outputs at {m}x{n}x{k} bf16={bf16}");
        for _ in 0..1500 {
            let i = rng.below(m);
            let j = rng.below(n);
            let mut acc = 0.0f64;
            for p in 0..k {
                acc += a_ref[i * k + p] as f64 * b_ref[p * n + j] as f64;
            }
            let err = (got[i * n + j] as f64 - acc).abs();
            assert!(
                err < 1e-2,
                "{m}x{n}x{k} bf16={bf16} C[{i},{j}] = {} vs f64 {acc}",
                got[i * n + j]
            );
        }
    }
}

#[test]
fn gemm_swizzle_grid_sampled_parity() {
    let mut dev = tensorops_device();
    dev.rt.set_precision(PrecisionMode::Bf16);
    let mut rng = Rng::new(0x5117_2026u64);
    for (m, n, k) in [(4096usize, 4096usize, 64usize), (4095, 4033, 65)] {
        let a_host: Vec<f32> = (0..m * k).map(|_| rng.unit()).collect();
        let b_host: Vec<f32> = (0..k * n).map(|_| rng.unit()).collect();
        let a_ref = round_bf16(&a_host);
        let b_ref = round_bf16(&b_host);
        let a = upload(&mut dev, &mut rng, &[m, k], &a_host, true);
        let b = upload(&mut dev, &mut rng, &[k, n], &b_host, true);
        let c = dev.tensor(&[m, n]);
        dev.write(&c.buffer, &vec![f32::NAN; m * n]);
        gemm(&mut dev.rt, &a, &b, &c, GemmBackend::TensorOps).unwrap();
        dev.finish();
        let got = dev.read(&c.buffer);
        let n_bad = got.iter().filter(|x| !x.is_finite()).count();
        assert_eq!(n_bad, 0, "unwritten/nonfinite C at {m}x{n}x{k}");
        for _ in 0..1500 {
            let i = rng.below(m);
            let j = rng.below(n);
            let mut acc = 0.0f64;
            for p in 0..k {
                acc += a_ref[i * k + p] as f64 * b_ref[p * n + j] as f64;
            }
            let err = (got[i * n + j] as f64 - acc).abs();
            assert!(
                err < 1e-2,
                "{m}x{n}x{k} C[{i},{j}] = {} vs f64 {acc}",
                got[i * n + j]
            );
        }
    }
}

#[test]
fn gemm_determinism_soak() {
    let mut dev = tensorops_device();
    let mut rng = Rng::new(0xD57E_2026u64);
    for (family, m, n, k) in [
        (Family::NnRawBf16, 130usize, 70usize, 260usize),
        (Family::Tn, 96, 96, 4096),
        (Family::Nn, 128, 96, 384),
        (Family::NtAccum, 64, 48, 2048),
    ] {
        let mut baseline: Option<Vec<u32>> = None;
        for rep in 0..25 {
            let mut case_rng = Rng::new(0xBA5E_11E5u64);
            let a_host: Vec<f32> = (0..m * k).map(|_| case_rng.unit()).collect();
            let b_host: Vec<f32> = (0..n * k).map(|_| case_rng.unit()).collect();
            let bf16 = matches!(family, Family::NnRawBf16);
            dev.rt.set_precision(if bf16 {
                PrecisionMode::Bf16
            } else {
                PrecisionMode::F32
            });
            let (a_shape, b_shape) = match family {
                Family::Tn => ([k, m], [k, n]),
                Family::NtAccum => ([m, k], [n, k]),
                _ => ([m, k], [k, n]),
            };
            let a = upload(&mut dev, &mut rng, &a_shape, &a_host, bf16);
            let b = upload(&mut dev, &mut rng, &b_shape, &b_host, bf16);
            let c = dev.tensor(&[m, n]);
            dev.write(&c.buffer, &vec![0.5f32; m * n]);
            let launch: Launch = match family {
                Family::NnRawBf16 => gemm,
                Family::Tn => gemm_tn_train,
                Family::Nn => gemm_train,
                Family::NtAccum => gemm_nt_accum_train,
                _ => unreachable!(),
            };
            launch(&mut dev.rt, &a, &b, &c, GemmBackend::TensorOps).unwrap();
            dev.finish();
            let got = bits(&dev.read(&c.buffer));
            match &baseline {
                None => baseline = Some(got),
                Some(base) => assert_eq!(
                    base, &got,
                    "{family:?} {m}x{n}x{k} diverged at rep {rep}"
                ),
            }
            for t in [a, b, c] {
                dev.drop_tensor(t);
            }
        }
    }
}

#[test]
fn gemm_concurrent_runtimes() {
    // Interleaved rather than in parallel: what must hold is that the runtimes
    // share nothing.
    let mut devices: Vec<(Device, Rng)> = (0..3u64)
        .map(|t| (Device::with_id(t + 1), Rng::new(0xC0C0_0000u64 + t)))
        .collect();
    for _ in 0..12 {
        for (t, (dev, rng)) in devices.iter_mut().enumerate() {
            let family = FAMILIES[rng.below(FAMILIES.len())];
            fuzz_case(dev, rng, family, t as u64);
        }
    }
}
