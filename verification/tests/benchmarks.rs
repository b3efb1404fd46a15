//! What the benchmark programs decide.

use tessl::ab_flags::{AbFlags, Env};
use tessl::bench::{
    coverage, dispatch_variant, fill, run_variant, shapes_from_text, Coverage, Variant,
};
use tessl::device::{DeviceInfo, DeviceOp, Kernel};
use tessl::icb_flags::IcbFlags;
use tessl::infer_trace::InferTrace;
use tessl::runtime::GpuRuntime;

const WIDE: Variant = Variant {
    kernel: "mm_wide",
    sm: 128,
    sn: 64,
    bk: 256,
    nsg: 8,
    needs_zero: false,
    binds_tiles_m: false,
};

fn runtime() -> GpuRuntime {
    let kernels = ["mm_wide", "zero_f32"]
        .iter()
        .map(|name| Kernel {
            name: name.to_string(),
            library: 0,
            thread_execution_width: 32,
            max_threads: 1024,
            icb_capable: false,
        })
        .collect();
    GpuRuntime::new(
        1,
        DeviceInfo {
            max_buffer_length: 1 << 30,
            max_threadgroup_memory: 32768,
            arena_address: 0x1_0000_0000,
            recommended_working_set: 1 << 34,
            memory_size: 1 << 35,
            counter_heap: false,
        },
        kernels,
        0,
        AbFlags::new(Env { vars: Vec::new() }),
        IcbFlags::new(),
        InferTrace::new(),
    )
}

#[test]
fn shape_lists_are_read() {
    let shapes = shapes_from_text(" 512x256x128 ,,4096x1x+7, ").unwrap();
    let got: Vec<(usize, usize, usize, &str)> = shapes
        .iter()
        .map(|s| (s.m, s.n, s.k, s.label.as_str()))
        .collect();
    assert_eq!(
        got,
        [(512, 256, 128, "512x256x128"), (4096, 1, 7, "4096x1x7")]
    );
    assert!(shapes_from_text("").unwrap().is_empty());
    // A label is a list of one shape.
    let again = shapes_from_text(&shapes[1].label).unwrap();
    assert_eq!((again[0].m, again[0].n, again[0].k), (4096, 1, 7));
}

#[test]
fn malformed_shapes_are_quoted() {
    for bad in ["512x512", "1x2x3x4", "axbxc", "1x 2x3", "-1x2x3", "1x2x"] {
        let list = format!("8x8x8,{bad}");
        assert_eq!(
            shapes_from_text(&list).unwrap_err(),
            format!("BENCH_SHAPES entry must be MxNxK, got {bad}")
        );
    }
}

#[test]
fn operands_are_reproducible() {
    assert_eq!(fill(3, 1), [3568765006, 2372726826, 2705857660]);
    assert_eq!(fill(2, 2), [1024893168, 2557565345]);
    assert!(fill(0, 9).is_empty());
    assert_eq!(fill(1000, 1)[..3], fill(3, 1)[..]);
}

#[test]
fn partial_writes_are_found() {
    let sentinel = (-1.234_567_9e30f32).to_bits();
    let one = 1.0f32.to_bits();
    assert_eq!(coverage(&[one, one], 2, sentinel), Coverage::Complete);
    assert_eq!(
        coverage(&[one, sentinel, one, sentinel], 4, sentinel),
        Coverage::Unwritten { count: 2, first: 1 }
    );
    // What lies past the output does not count.
    assert_eq!(coverage(&[one, sentinel], 1, sentinel), Coverage::Complete);
    assert_eq!(coverage(&[one], 5, sentinel), Coverage::Complete);
    assert_eq!(
        coverage(&[sentinel, f32::NAN.to_bits()], 2, sentinel),
        Coverage::NonFinite
    );
}

#[test]
fn variants_launch_one_group_per_tile() {
    assert!(WIDE.divides(256, 128, 512));
    assert!(!WIDE.divides(256, 128, 300));
    assert!(!WIDE.divides(100, 128, 512));
    let mut rt = runtime();
    let a = rt.alloc_tensor_bf16(&[256, 512]).unwrap();
    let b = rt.alloc_tensor_bf16(&[512, 128]).unwrap();
    let c = rt.alloc_tensor_f32(&[256, 128]).unwrap();
    let grids = |rt: &mut GpuRuntime| -> (Vec<(usize, usize)>, usize, usize) {
        let (ops, _) = rt.take_ops();
        let mut out = Vec::new();
        let (mut binds, mut barriers) = (0, 0);
        for op in ops {
            match op {
                DeviceOp::Dispatch { groups, threads } => out.push((groups.width, threads.width)),
                DeviceOp::SetAddress { .. } => binds += 1,
                DeviceOp::Barrier => barriers += 1,
                _ => {}
            }
        }
        (out, binds, barriers)
    };
    rt.take_ops();
    run_variant(&mut rt, &WIDE, &a, &b, &c, 256, 128, 512).unwrap();
    assert_eq!(grids(&mut rt), (vec![(4, 256)], 7, 1));
    let zeroing = Variant { needs_zero: true, ..WIDE };
    run_variant(&mut rt, &zeroing, &a, &b, &c, 256, 128, 512).unwrap();
    // The zero pass, its barrier, the caller's, the product and its barrier.
    assert_eq!(grids(&mut rt), (vec![(1024, 32), (4, 256)], 9, 3));
    let swizzled = Variant { binds_tiles_m: true, ..WIDE };
    dispatch_variant(&mut rt, &swizzled, &a, &b, &c, 256, 128, 512).unwrap();
    assert_eq!(grids(&mut rt), (vec![(4, 256)], 8, 1));
    let missing = Variant { kernel: "mm_none", ..WIDE };
    assert_eq!(
        dispatch_variant(&mut rt, &missing, &a, &b, &c, 256, 128, 512).unwrap_err(),
        "kernel 'mm_none' not found in metallib"
    );
}
