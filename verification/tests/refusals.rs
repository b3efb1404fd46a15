//! What is refused, and that nothing was encoded by then.

use std::cell::Cell;

use tessl::ab_flags::{AbFlags, Env};
use tessl::device::{DeviceInfo, DeviceOp, Kernel, METAL4_CONST_ARENA_BYTES};
use tessl::dispatch::{dispatch_1d, dispatch_2d, dispatch_3d, Binder};
use tessl::gemm::{
    cast_bf16_to_f32, cast_f32_to_bf16, cast_f32_to_bf16_into, gemm, gemm_nt_accum_train,
    gemm_nt_f32, gemm_nt_train, gemm_tn_accum_train, gemm_tn_f32, gemm_tn_train, gemm_train,
    GemmBackend,
};
use tessl::icb_flags::IcbFlags;
use tessl::infer_trace::InferTrace;
use tessl::mtl_tensor::{alloc_device_tensor, bind_mtl_tensor, plan_tensor};
use tessl::ops::softcap_f32;
use tessl::runtime::open::Opened;
use tessl::runtime::GpuRuntime;
use tessl::state::PrecisionMode;
use tessl::tensor::{gpu_copy, DType, Tensor};
use tessl::QuantDType;

const KERNELS: &[&str] = &[
    "copy_f32",
    "softcap_f32",
    "zero_f32",
    "matmul2d_tensorops_f32",
    "matmul2d_tensorops_f32_relaxed",
];

fn info() -> DeviceInfo {
    DeviceInfo {
        max_buffer_length: 1 << 32,
        max_threadgroup_memory: 32768,
        arena_address: 0x1_0000_0000,
        recommended_working_set: 1 << 34,
        memory_size: 1 << 35,
        counter_heap: false,
    }
}

fn catalog(names: &[&str]) -> Vec<Kernel> {
    names
        .iter()
        .map(|name| Kernel {
            name: name.to_string(),
            library: 0,
            thread_execution_width: 32,
            max_threads: 1024,
            icb_capable: true,
        })
        .collect()
}

fn runtime(id: u64) -> GpuRuntime {
    GpuRuntime::new(
        id,
        info(),
        catalog(KERNELS),
        1 << 33,
        AbFlags::new(Env { vars: Vec::new() }),
        IcbFlags::new(),
        InferTrace::new(),
    )
}

/// Commands encoded since the log was last taken.
fn dispatches(rt: &mut GpuRuntime) -> usize {
    let (ops, _) = rt.take_ops();
    ops.iter()
        .filter(|op| matches!(op, DeviceOp::Dispatch { .. }))
        .count()
}

type Launch = fn(&mut GpuRuntime, &Tensor, &Tensor, &Tensor, GemmBackend) -> Result<(), String>;

const LAUNCHES: &[Launch] = &[
    gemm,
    gemm_train,
    gemm_tn_f32,
    gemm_nt_f32,
    gemm_tn_train,
    gemm_nt_train,
    gemm_tn_accum_train,
    gemm_nt_accum_train,
];

// ------------------------------------------------------------- dispatch ----

#[test]
fn dispatch_1d_rejects_u32_overflow_before_encoding() {
    let mut rt = runtime(1);
    let pipe = rt.pipeline("copy_f32").unwrap();
    rt.take_dispatch_count();
    let result = dispatch_1d(&mut rt, &pipe, u32::MAX as usize + 1, |_: &mut Binder| {
        panic!("encode closure must not run for an oversized dispatch");
    });
    assert!(result.is_err(), "oversized dispatch_1d accepted");
    assert_eq!(rt.take_dispatch_count(), 0);
}

#[test]
fn oversized_extent_rejected_before_callback() {
    let mut rt = runtime(1);
    let p = rt.pipeline("copy_f32").unwrap();
    let called = Cell::new(false);
    assert!(dispatch_2d(&mut rt, &p, usize::MAX, 1, |_: &mut Binder| called.set(true)).is_err());
    assert!(!called.get(), "oversized 2D dispatch reached encoder");
    assert!(
        dispatch_3d(&mut rt, &p, 1, 1, usize::MAX, |_: &mut Binder| called.set(true)).is_err()
    );
    assert!(!called.get(), "oversized 3D dispatch reached encoder");
}

#[test]
fn binder_rejects_foreign_runtime_storage() {
    let mut rt = runtime(1);
    let mut other = runtime(2);
    let t = other.alloc_tensor_f32(&[4]).unwrap();
    let map = t.buffer.try_contents_f32(&mut other, 0x1000).unwrap();
    assert!(rt
        .with_binder(|b| {
            b.bind_tensor(&t, 0);
            Ok(())
        })
        .is_err());
    assert_eq!(map.len(), 4);
    other.unmap_host(map);
}

#[test]
fn oversized_constants_return_error_instead_of_panicking() {
    let mut rt = runtime(1);
    let bytes = vec![0u8; METAL4_CONST_ARENA_BYTES + 1];
    let result = rt.with_binder(|b| {
        b.bind_bytes(&bytes, 0);
        Ok(())
    });
    assert!(result.is_err());
}

#[test]
fn binder_rejects_bad_view_without_a_dispatch() {
    let mut rt = runtime(1);
    let mut t = rt.alloc_tensor_f32(&[4]).unwrap();
    t.byte_offset = usize::MAX;
    assert!(rt
        .with_binder(|b| {
            b.bind_tensor(&t, 0);
            Ok(())
        })
        .is_err());
    assert_eq!(dispatches(&mut rt), 0);
}

#[test]
fn bind_mtl_tensor_rejects_out_of_range_index() {
    let mut rt = runtime(1);
    let plan = plan_tensor(&[16, 16], QuantDType::Int8).unwrap();
    let t = alloc_device_tensor(&rt, plan, Ok(77)).expect("int8 tensor");
    let mut outcome = None;
    rt.with_binder(|bnd| {
        outcome = Some((
            bind_mtl_tensor(bnd, &t, 0),
            bind_mtl_tensor(bnd, &t, 30),
            bind_mtl_tensor(bnd, &t, 31),
            bind_mtl_tensor(bnd, &t, usize::MAX),
        ));
        Ok(())
    })
    .expect("binder scope");
    let (first, last, past_end, huge) = outcome.expect("binder body ran");
    first.expect("index 0 is a valid slot");
    last.expect("the last slot must still bind");
    let err = past_end.expect_err("index 31 is past the end of a 31-slot table");
    assert!(err.contains("out of range"), "{err}");
    huge.expect_err("no slot that far");
    let (ops, _) = rt.take_ops();
    let bound: Vec<usize> = ops
        .iter()
        .filter_map(|op| match op {
            DeviceOp::SetResource { index, resource: 77 } => Some(*index),
            _ => None,
        })
        .collect();
    assert_eq!(bound, [0, 30]);
}

// -------------------------------------------------------------- runtime ----

#[test]
fn callback_failure_poisoning_prevents_partial_submission() {
    let mut rt = runtime(1);
    rt.set_async_encode(true).unwrap();
    assert!(rt
        .with_binder(|_| Err("injected encode failure".into()))
        .is_err());
    assert!(
        rt.synchronize().is_err(),
        "failed batch was submitted as success"
    );
    let (ops, _) = rt.take_ops();
    assert!(!ops.contains(&DeviceOp::Submit));
}

#[test]
fn failed_wait_poisons() {
    let mut rt = runtime(1);
    let t = rt.alloc_tensor_f32(&[4]).unwrap();
    rt.wait_failed();
    let problem = "runtime is poisoned after encode/submit failure; recreate it";
    assert_eq!(rt.synchronize().unwrap_err(), problem);
    assert_eq!(rt.with_binder(|_| Ok(())).unwrap_err(), problem);
    assert_eq!(t.buffer.zero(&mut rt).unwrap_err(), problem);
}

#[test]
fn oversized_raw_allocations_fail_without_panicking() {
    let mut rt = runtime(1);
    assert!(rt.alloc_buffer(usize::MAX).is_err());
}

#[test]
fn allocation_rejects_overflow() {
    let mut rt = runtime(1);
    assert!(rt.alloc_tensor_f32(&[usize::MAX, usize::MAX]).is_err());
    assert!(rt.alloc_tensor_bf16(&[usize::MAX, usize::MAX]).is_err());
    assert!(rt.alloc_tensor_f32_hot(&[usize::MAX / 4 + 2]).is_err());
    assert!(rt.alloc_temp_f32(&[usize::MAX, usize::MAX]).is_err());
}

#[test]
#[should_panic(expected = "view")]
fn view_rejects_offset_overflow() {
    let mut rt = runtime(1);
    let t = rt.alloc_tensor_f32(&[4]).unwrap();
    let _ = t.try_view(&mut rt, &[1], usize::MAX / 4 + 1).expect("view");
}

#[test]
fn missing_kernels_and_openings_are_named() {
    let mut rt = runtime(1);
    assert!(rt.pipeline("no_such_kernel").unwrap_err().contains("no_such_kernel"));
    let flags = || {
        (
            AbFlags::new(Env { vars: Vec::new() }),
            IcbFlags::new(),
            InferTrace::new(),
        )
    };
    for (opened, text) in [
        (Opened::NoDevice, "MTLCreateSystemDefaultDevice returned nil"),
        (
            Opened::BadPath { quoted: "\"\\xFF\"".to_string() },
            "non-utf8 metallib path: \"\\xFF\"",
        ),
        (
            Opened::Missing { path: "/k.metallib".to_string() },
            "metallib missing at /k.metallib (build.rs AOT failed?)",
        ),
        (
            Opened::LoadFailed { error: "corrupt".to_string() },
            "load metallib: corrupt",
        ),
        (
            Opened::NoEncodePackage { error: "old".to_string() },
            "Metal 4 encode package unavailable (old); metal-runtime requires Metal 4",
        ),
    ] {
        let (ab, icb, trace) = flags();
        match GpuRuntime::from_metallib_path_opts(1, opened, ab, icb, trace) {
            Err(e) => assert_eq!(e, text),
            Ok(_) => panic!("opened: {text}"),
        }
    }
    let (ab, icb, trace) = flags();
    let ready = Opened::Ready { info: info(), kernels: catalog(KERNELS), wired_budget: 9 };
    let rt = GpuRuntime::from_metallib_path_opts(5, ready, ab, icb, trace).ok().unwrap();
    assert_eq!((rt.id(), rt.memory_info().wired_budget), (5, 9));
}

// -------------------------------------------------------------- storage ----

#[test]
fn bump_allocation_rejects_live_host_mapping() {
    let mut rt = runtime(1);
    rt.ensure_bump(512).unwrap();
    let first = rt.bump_alloc_f32(&[4]).unwrap();
    let map = first.buffer.try_contents_f32(&mut rt, 0x1000).unwrap();
    assert!(
        rt.bump_alloc_f32(&[4]).is_err(),
        "host mapping aliases slab initialization"
    );
    rt.unmap_host(map);
    assert!(rt.bump_alloc_f32(&[4]).is_ok());
}

#[test]
fn host_mapping_excludes_encoding() {
    let mut rt = runtime(1);
    let t = rt.alloc_tensor_f32(&[4]).unwrap();
    let map = t.buffer.try_contents_f32(&mut rt, 0x1000).unwrap();
    assert!(
        rt.with_binder(|_| Ok(())).is_err(),
        "encoding accepted during host mapping"
    );
    rt.unmap_host(map);
    rt.with_binder(|_| Ok(())).unwrap();
}

#[test]
fn only_its_own_runtime_ends_a_mapping() {
    let mut rt = runtime(1);
    let mut other = runtime(2);
    let t = rt.alloc_tensor_f32(&[4]).unwrap();
    let u = other.alloc_tensor_f32(&[4]).unwrap();
    let map = t.buffer.try_contents_f32(&mut rt, 0x1000).unwrap();
    let foreign = u.buffer.try_contents_f32(&mut other, 0x1000).unwrap();
    rt.unmap_host(foreign);
    assert!(rt.with_binder(|_| Ok(())).is_err(), "still mapped");
    assert!(other.with_binder(|_| Ok(())).is_err(), "still mapped there too");
    rt.unmap_host(map);
    rt.with_binder(|_| Ok(())).unwrap();
}

#[test]
fn misaligned_host_addresses_are_refused() {
    let mut rt = runtime(1);
    let t = rt.alloc_tensor_f32(&[4]).unwrap();
    assert!(t.buffer.try_contents_f32(&mut rt, 0x1002).is_err());
    // A refused mapping holds nothing.
    let map = t.buffer.try_contents_u16(&mut rt, 0x1002).unwrap();
    assert_eq!(map.len(), 8);
    rt.unmap_host(map);
}

#[test]
fn copy_rejects_overlap_before_encoding() {
    let mut rt = runtime(1);
    let t = rt.alloc_tensor_f32(&[16]).unwrap();
    let (low, high) = (t.view(&mut rt, &[8], 0), t.view(&mut rt, &[8], 4));
    assert!(gpu_copy(&mut rt, &low, &high).is_err());
    assert_eq!(rt.take_dispatch_count(), 0);
}

#[test]
fn copy_rejects_malformed_metadata_without_panicking() {
    let mut rt = runtime(1);
    let a = rt.alloc_tensor_f32(&[4]).unwrap();
    let b = rt.alloc_tensor_f32(&[3]).unwrap();
    assert!(gpu_copy(&mut rt, &a, &b).is_err());
}

// ----------------------------------------------------------------- GEMM ----

#[test]
fn rejects_invalid_metadata_and_mixed_runtimes() {
    let mut rt = runtime(1);
    let mut other = runtime(2);
    let a = rt.alloc_tensor_f32(&[16, 16]).unwrap();
    let b = rt.alloc_tensor_f32(&[16, 16]).unwrap();
    let c = rt.alloc_tensor_f32(&[16, 16]).unwrap();
    let foreign = other.alloc_tensor_f32(&[16, 16]).unwrap();
    let mut cases = Vec::new();
    for (shape, offset, dtype) in [
        (vec![0, 16], 0, DType::F32),
        (vec![16, 16], 1, DType::F32),
        (vec![16, 16], 4, DType::F32),
        (vec![usize::MAX, usize::MAX], 0, DType::F32),
        (vec![16, 16], 0, DType::BF16),
        (vec![16, 15], 0, DType::F32),
    ] {
        let mut bad = c.view(&mut rt, &[16, 16], 0);
        bad.shape = shape;
        bad.byte_offset = offset;
        bad.dtype = dtype;
        cases.push(bad);
    }
    for precision in [PrecisionMode::F32, PrecisionMode::Bf16] {
        rt.set_precision(precision);
        for launch in LAUNCHES {
            for bad in &cases {
                assert!(launch(&mut rt, &a, &b, bad, GemmBackend::TensorOps).is_err());
            }
            assert!(launch(&mut rt, &a, &foreign, &c, GemmBackend::TensorOps).is_err());
            // A mismatched inner dimension must fail before any bf16 cast.
            let bad_b = b.view(&mut rt, &[16, 15], 0);
            assert!(launch(&mut rt, &a, &bad_b, &c, GemmBackend::TensorOps).is_err());
        }
    }
    assert_eq!(rt.take_dispatch_count(), 0);
}

#[test]
fn casts_reject_dtype_and_shape_before_encoding() {
    let mut rt = runtime(1);
    let a = rt.alloc_tensor_f32(&[16, 16]).unwrap();
    let b = rt.alloc_tensor_bf16(&[256]).unwrap();
    assert!(cast_f32_to_bf16_into(&mut rt, &a, &b).is_err());
    assert!(cast_bf16_to_f32(&mut rt, &a).is_err());
    assert!(cast_f32_to_bf16(&mut rt, &b).is_err());
    assert_eq!(rt.take_dispatch_count(), 0);
}

#[test]
fn rejects_bad_rank_without_panicking_or_encoding() {
    let mut rt = runtime(1);
    let a = rt.alloc_tensor_f32(&[16, 16]).unwrap();
    let b = a.deep_copy(&mut rt).unwrap();
    let c = a.deep_copy(&mut rt).unwrap();
    rt.synchronize().unwrap();
    let bad = a.view(&mut rt, &[256], 0);
    for launch in LAUNCHES {
        rt.take_dispatch_count();
        assert!(
            launch(&mut rt, &bad, &b, &c, GemmBackend::TensorOps).is_err(),
            "invalid rank accepted"
        );
        assert_eq!(rt.take_dispatch_count(), 0);
    }
}

#[test]
fn rejects_output_alias_before_encoding() {
    let mut rt = runtime(1);
    let a = rt.alloc_tensor_f32(&[16, 16]).unwrap();
    let b = rt.alloc_tensor_f32(&[16, 16]).unwrap();
    for launch in LAUNCHES {
        rt.take_dispatch_count();
        assert!(launch(&mut rt, &a, &b, &a, GemmBackend::TensorOps).is_err());
        assert_eq!(rt.take_dispatch_count(), 0);
    }
}

#[test]
fn rejects_wrong_dtype_on_transpose_paths() {
    let mut rt = runtime(1);
    let mut a = rt.alloc_tensor_f32(&[16, 16]).unwrap();
    let b = rt.alloc_tensor_f32(&[16, 16]).unwrap();
    let c = rt.alloc_tensor_f32(&[16, 16]).unwrap();
    a.dtype = DType::BF16;
    assert!(gemm_tn_f32(&mut rt, &a, &b, &c, GemmBackend::TensorOps).is_err());
    assert!(gemm_nt_f32(&mut rt, &a, &b, &c, GemmBackend::TensorOps).is_err());
}

#[test]
fn softcap_rejects_invalid_boundary() {
    let mut rt = runtime(1);
    let bf = rt.alloc_tensor_bf16(&[4]).unwrap();
    assert!(softcap_f32(&mut rt, &bf, 1.0f32.to_bits()).is_err());
    let t = rt.alloc_tensor_f32(&[4]).unwrap();
    for cap in [0.0, -1.0, f32::NAN, f32::INFINITY] {
        assert!(softcap_f32(&mut rt, &t, cap.to_bits()).is_err());
    }
    assert_eq!(rt.take_dispatch_count(), 0);
    assert!(softcap_f32(&mut rt, &t, 30.0f32.to_bits()).is_ok());
    assert_eq!(rt.take_dispatch_count(), 1);
}
